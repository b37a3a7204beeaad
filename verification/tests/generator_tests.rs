use stl_parser::STLFormat;
use stl_parser::stl_generator::StlGenerator;
use stl_parser::stl_parser::StlParser;
use stl_parser::vec3::Vec3;

fn v(x: f32, y: f32, z: f32) -> Vec3 {
    Vec3 { x: x.to_bits(), y: y.to_bits(), z: z.to_bits() }
}

fn f(bits: u32) -> f32 {
    f32::from_bits(bits)
}

#[test]
fn cube_invariants() {
    let a = 2.0f32;
    let origin = v(0.5, -1.25, 3.0);
    let mesh = StlGenerator::generate_cube(a.to_bits(), origin);
    assert_eq!(mesh.len(), 12);
    for t in &mesh {
        // Every vertex sits half an edge from the origin along each axis.
        for w in &t.vertices {
            assert!((f(w.x) - f(origin.x)).abs() == a / 2.0);
            assert!((f(w.y) - f(origin.y)).abs() == a / 2.0);
            assert!((f(w.z) - f(origin.z)).abs() == a / 2.0);
        }
        // Unit normal.
        let (nx, ny, nz) = (f(t.normal.x), f(t.normal.y), f(t.normal.z));
        let len = (nx * nx + ny * ny + nz * nz).sqrt();
        assert!((len - 1.0).abs() < 1.0e-5);
        // Outward: the normal agrees with the direction from the origin to
        // the face's centroid.
        let cx = (f(t.vertices[0].x) + f(t.vertices[1].x) + f(t.vertices[2].x)) / 3.0
            - f(origin.x);
        let cy = (f(t.vertices[0].y) + f(t.vertices[1].y) + f(t.vertices[2].y)) / 3.0
            - f(origin.y);
        let cz = (f(t.vertices[0].z) + f(t.vertices[1].z) + f(t.vertices[2].z)) / 3.0
            - f(origin.z);
        assert!(nx * cx + ny * cy + nz * cz > 0.0);
    }
}

#[test]
fn cone_invariants() {
    let n: usize = 8;
    let r = 1.5f32;
    let h = 2.0f32;
    let origin = v(0.5, -1.0, 0.25);
    let mesh = StlGenerator::generate_cone(n, r.to_bits(), h.to_bits(), origin);
    assert_eq!(mesh.len(), n + (n - 2));
    // Every wall triangle: base edge on the ring, apex on top.
    let apex = v(0.5, -1.0, 2.25);
    for (i, t) in mesh[..n].iter().enumerate() {
        assert_eq!(t.vertices[2], apex);
        for w in &t.vertices[..2] {
            // Base vertices lie in the base plane at the base radius.
            assert_eq!(f(w.z), f(origin.z));
            let dx = f(w.x) - f(origin.x);
            let dy = f(w.y) - f(origin.y);
            assert!((dx * dx + dy * dy).sqrt() - r < 1.0e-5);
            assert!(r - (dx * dx + dy * dy).sqrt() < 1.0e-5);
        }
        // The ring samples follow the unit circle.
        let angle = (i as f32) / (n as f32) * 2.0 * std::f32::consts::PI;
        let dx = f(t.vertices[0].x) - f(origin.x);
        let dy = f(t.vertices[0].y) - f(origin.y);
        assert!((dx - r * angle.cos()).abs() < 1.0e-5);
        assert!((dy - r * angle.sin()).abs() < 1.0e-5);
    }
    // The base fan is anchored at ring vertex 0.
    for t in &mesh[n..] {
        assert_eq!(t.vertices[0], mesh[0].vertices[0]);
        assert_eq!(f(t.vertices[1].z), f(origin.z));
        assert_eq!(f(t.vertices[2].z), f(origin.z));
    }
}

#[test]
fn cube_binary_concrete() {
    // Edge 2.0 at the origin: written binary and read back, the mesh holds
    // 12 triangles over exactly the eight corners with coordinates -1, 1.
    let bytes = StlGenerator::generate_cube_stl(
        2.0f32.to_bits(),
        v(0.0, 0.0, 0.0),
        STLFormat::Binary,
    );
    assert!(bytes[..80].iter().all(|&b| b == 0));
    assert_eq!(&bytes[80..84], &[12, 0, 0, 0]);
    let mesh = StlParser::read_stl(&bytes).unwrap();
    assert_eq!(mesh.len(), 12);
    let mut corners: Vec<(u32, u32, u32)> = Vec::new();
    for t in &mesh {
        for w in &t.vertices {
            let c = (w.x, w.y, w.z);
            if !corners.contains(&c) {
                corners.push(c);
            }
        }
    }
    assert_eq!(corners.len(), 8);
    let one = 1.0f32.to_bits();
    let neg_one = (-1.0f32).to_bits();
    for s in [neg_one, one] {
        for t in [neg_one, one] {
            for u in [neg_one, one] {
                assert!(corners.contains(&(s, t, u)));
            }
        }
    }
}

#[test]
fn cube_ascii_round() {
    let origin = v(0.25, 0.5, -0.75);
    let bytes = StlGenerator::generate_cube_stl(1.5f32.to_bits(), origin, STLFormat::ASCII);
    let mesh = StlParser::read_stl(&bytes).unwrap();
    assert_eq!(mesh, StlGenerator::generate_cube(1.5f32.to_bits(), origin));
}

#[test]
fn cone_binary_round() {
    let origin = v(0.0, 0.0, 0.0);
    let bytes = StlGenerator::generate_cone_stl(
        5,
        1.0f32.to_bits(),
        3.0f32.to_bits(),
        origin,
        STLFormat::Binary,
    );
    let mesh = StlParser::read_stl(&bytes).unwrap();
    assert_eq!(mesh.len(), 5 + 3);
    assert_eq!(
        mesh,
        StlGenerator::generate_cone(5, 1.0f32.to_bits(), 3.0f32.to_bits(), origin),
    );
}
