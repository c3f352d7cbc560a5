use stl2lnas::reader::read_stl;
use stl2lnas::surfaces::get_surfaces;
use stl2lnas::triangle::{get_triangles_min_max, normalize_triangles, Axis, TriangleSTL};
use stl2lnas::vector::Vec3f;

type Tri = ([f32; 3], [f32; 3], [f32; 3], [f32; 3]);

fn stl_from(tris: &[Tri]) -> Vec<u8> {
    let mut out = vec![0u8; 80];
    out.extend_from_slice(&(tris.len() as u32).to_le_bytes());
    for t in tris {
        for v in [t.0, t.1, t.2, t.3] {
            for x in v {
                out.extend_from_slice(&x.to_le_bytes());
            }
        }
        out.extend_from_slice(&[0u8, 0u8]);
    }
    out
}

fn cube_tris() -> Vec<Tri> {
    vec![
        ([0., 0., -1.], [0., 0., 0.], [1., 0., 0.], [1., 1., 0.]),
        ([0., 0., -1.], [0., 0., 0.], [1., 1., 0.], [0., 1., 0.]),
        ([0., 0., 1.], [0., 0., 1.], [1., 0., 1.], [1., 1., 1.]),
        ([0., 0., 1.], [0., 0., 1.], [1., 1., 1.], [0., 1., 1.]),
        ([0., -1., 0.], [0., 0., 0.], [1., 0., 0.], [1., 0., 1.]),
        ([0., -1., 0.], [0., 0., 0.], [1., 0., 1.], [0., 0., 1.]),
        ([0., 1., 0.], [0., 1., 0.], [1., 1., 0.], [1., 1., 1.]),
        ([0., 1., 0.], [0., 1., 0.], [1., 1., 1.], [0., 1., 1.]),
        ([-1., 0., 0.], [0., 0., 0.], [0., 1., 0.], [0., 1., 1.]),
        ([-1., 0., 0.], [0., 0., 0.], [0., 1., 1.], [0., 0., 1.]),
        ([1., 0., 0.], [1., 0., 0.], [1., 1., 0.], [1., 1., 1.]),
        ([1., 0., 0.], [1., 0., 0.], [1., 1., 1.], [1., 0., 1.]),
    ]
}

fn cube_stl() -> Vec<u8> {
    stl_from(&cube_tris())
}

/// A small height-field style mesh: a 3 by 3 grid of squares at z = 0,
/// two triangles each.
fn terrain_stl() -> Vec<u8> {
    let mut tris: Vec<Tri> = Vec::new();
    for i in 0..3 {
        for j in 0..3 {
            let (x, y) = (i as f32, j as f32);
            tris.push(([0., 0., 1.], [x, y, 0.], [x + 1., y, 0.], [x + 1., y + 1., 0.]));
            tris.push(([0., 0., 1.], [x, y, 0.], [x + 1., y + 1., 0.], [x, y + 1., 0.]));
        }
    }
    stl_from(&tris)
}

/// A second, distinct solid to combine with the cube: the same box moved
/// along x.
fn cylinder_stl() -> Vec<u8> {
    let mut tris = cube_tris();
    for t in tris.iter_mut() {
        t.1[0] += 10.0;
        t.2[0] += 10.0;
        t.3[0] += 10.0;
    }
    stl_from(&tris)
}

#[test]
fn reader_can_read_stl_cube() {
    let content = cube_stl();
    let (triangles, _dropped) = read_stl(&content).unwrap();
    // Cube has 2 triangles each face
    assert_eq!(triangles.len(), 6 * 2);
}

#[test]
fn can_read_stl_terrain() {
    let content = terrain_stl();
    read_stl(&content).unwrap();
}

#[test]
fn surfaces_can_read_stl_cube() {
    let files = vec![("cube".to_string(), cube_stl())];
    let (triangles, surfaces) = get_surfaces(&files).unwrap();
    // Cube has 2 triangles each face
    let surface_cube = surfaces
        .iter()
        .find(|s| s.0 == "cube")
        .unwrap()
        .1
        .clone();
    assert_eq!(triangles.len(), surface_cube.len());
    assert_eq!(
        surface_cube,
        (0..surface_cube.len())
            .map(|v| u32::try_from(v).unwrap())
            .collect::<Vec<u32>>()
    );
}

#[test]
fn can_read_stl_combine() {
    let files = vec![
        ("cube".to_string(), cube_stl()),
        ("cylinder".to_string(), cylinder_stl()),
    ];
    let (triangles, surfaces) = get_surfaces(&files).unwrap();
    let surface_cube = surfaces.iter().find(|s| s.0 == "cube").unwrap().1.clone();
    let surface_cylinder = surfaces
        .iter()
        .find(|s| s.0 == "cylinder")
        .unwrap()
        .1
        .clone();

    assert_eq!(triangles.len(), surface_cube.len() + surface_cylinder.len());
    // Values are sorted by surface name
    assert_eq!(
        surface_cube,
        (0..surface_cube.len())
            .map(|v| u32::try_from(v).unwrap())
            .collect::<Vec<u32>>()
    );
    assert_eq!(
        surface_cylinder,
        (surface_cube.len()..surface_cube.len() + surface_cylinder.len())
            .map(|v| u32::try_from(v).unwrap())
            .collect::<Vec<u32>>()
    );
}

fn check_normalization(orig_triangles: Vec<TriangleSTL>, norm_triangles: Vec<TriangleSTL>, size: f32, axis_of: fn(&Vec3f) -> u32) {
    assert_eq!(norm_triangles.len(), orig_triangles.len());
    let vals: Vec<f32> = norm_triangles
        .iter()
        .flat_map(|t| vec![
            f32::from_bits(axis_of(&t.point0)),
            f32::from_bits(axis_of(&t.point1)),
            f32::from_bits(axis_of(&t.point2)),
        ])
        .collect();
    let max_v = vals.iter().cloned().fold(f32::MIN, f32::max);
    let min_v = vals.iter().cloned().fold(f32::MAX, f32::min);
    assert!((max_v - size).abs() < 1e-4, "max {} is not close to {}", max_v, size);
    assert!(min_v.abs() < 1e-4, "min {} is not close to 0", min_v);
}

#[test]
fn triangle_normalizes_stl_cube() {
    let size: f32 = 3.5;
    let (triangles, _) = read_stl(&cube_stl()).unwrap();
    let norm_triangles = normalize_triangles(&triangles, size.to_bits(), Axis::Y);
    check_normalization(triangles, norm_triangles, size, |v| v.y);
}

#[test]
fn triangle_normalizes_stl_terrain() {
    let size: f32 = 15.0;
    let (triangles, _) = read_stl(&terrain_stl()).unwrap();
    let norm_triangles = normalize_triangles(&triangles, size.to_bits(), Axis::X);
    check_normalization(triangles, norm_triangles, size, |v| v.x);
}

#[test]
fn min_max_of_cube() {
    let (triangles, _) = read_stl(&cube_stl()).unwrap();
    let (min_vals, max_vals) = get_triangles_min_max(&triangles);
    assert_eq!(f32::from_bits(min_vals.x), 0.0);
    assert_eq!(f32::from_bits(min_vals.y), 0.0);
    assert_eq!(f32::from_bits(min_vals.z), 0.0);
    assert_eq!(f32::from_bits(max_vals.x), 1.0);
    assert_eq!(f32::from_bits(max_vals.y), 1.0);
    assert_eq!(f32::from_bits(max_vals.z), 1.0);
}

#[test]
fn truncated_stl_is_rejected() {
    let mut content = cube_stl();
    content.truncate(100);
    assert_eq!(read_stl(&content), Err(stl2lnas::errors::LnasError::TruncatedStl));
    let short = vec![0u8; 10];
    assert_eq!(read_stl(&short), Err(stl2lnas::errors::LnasError::TruncatedStl));
}

#[test]
fn bad_normal_is_rejected() {
    // a triangle whose stored normal is far from unit length
    let tris: Vec<Tri> = vec![([0., 0., 3.], [0., 0., 0.], [1., 0., 0.], [0., 1., 0.])];
    let content = stl_from(&tris);
    assert_eq!(read_stl(&content), Err(stl2lnas::errors::LnasError::InvalidNormal));
}

#[test]
fn degenerate_triangles_are_dropped() {
    // the second triangle has coincident corners: zero area
    let tris: Vec<Tri> = vec![
        ([0., 0., 1.], [0., 0., 0.], [1., 0., 0.], [0., 1., 0.]),
        ([0., 0., 1.], [0., 0., 0.], [0., 0., 0.], [0., 1., 0.]),
    ];
    let content = stl_from(&tris);
    let (triangles, dropped) = read_stl(&content).unwrap();
    assert_eq!(triangles.len(), 1);
    assert_eq!(dropped, 1);
}

#[test]
fn duplicate_surface_name_is_rejected() {
    let files = vec![
        ("cube".to_string(), cube_stl()),
        ("cube".to_string(), cylinder_stl()),
    ];
    assert_eq!(
        get_surfaces(&files),
        Err(stl2lnas::errors::LnasError::DuplicateSurface)
    );
}
