use stl_parser::StlError;
use stl_parser::stl_parser::StlParser;
use stl_parser::stl_parser::Triangle;
use stl_parser::stl_parser::Triangles;
use stl_parser::vec3::Vec3;

fn v(x: f32, y: f32, z: f32) -> Vec3 {
    Vec3 { x: x.to_bits(), y: y.to_bits(), z: z.to_bits() }
}

fn tri(n: Vec3, a: Vec3, b: Vec3, c: Vec3) -> Triangle {
    Triangle { normal: n, vertices: [a, b, c] }
}

fn sample_mesh() -> Triangles {
    vec![
        tri(
            v(0.0, 0.0, 1.0),
            v(0.1, -2.5, 3.25),
            v(1.0e-7, 16777216.0, -0.0),
            v(1.5, 2.5, -3.5),
        ),
        tri(
            v(-0.57735026, 0.57735026, 0.57735026),
            v(f32::MIN_POSITIVE, 1.0e20, -4.0),
            v(123456.78, -9.999999e-5, 2.0),
            v(0.33333334, 0.6666667, 1.0),
        ),
    ]
}

#[test]
fn binary_round_trip_exact() {
    let mesh = sample_mesh();
    let bytes = StlParser::write_to_binary_file(&mesh);
    assert_eq!(bytes.len(), 84 + 50 * mesh.len());
    let back = StlParser::read_binary_stl(&bytes).unwrap();
    assert_eq!(back, mesh);
}

#[test]
fn binary_layout_is_exact() {
    let mesh = sample_mesh();
    let bytes = StlParser::write_to_binary_file(&mesh);
    // Zeroed 80-byte header, then the little-endian triangle count.
    assert!(bytes[..80].iter().all(|&b| b == 0));
    assert_eq!(&bytes[80..84], &[2, 0, 0, 0]);
    // First record: the normal's first component, little endian.
    assert_eq!(&bytes[84..88], &0.0f32.to_le_bytes());
    assert_eq!(&bytes[88..92], &0.0f32.to_le_bytes());
    assert_eq!(&bytes[92..96], &1.0f32.to_le_bytes());
    // First vertex of the first record.
    assert_eq!(&bytes[96..100], &0.1f32.to_le_bytes());
    // Attribute field of the first record is zeroed.
    assert_eq!(&bytes[132..134], &[0, 0]);
}

#[test]
fn ascii_round_trip_exact() {
    let mesh = sample_mesh();
    let bytes = StlParser::write_to_ascii_file(&mesh);
    let back = StlParser::read_ascii_stl(&bytes).unwrap();
    assert_eq!(back, mesh);
}

#[test]
fn ascii_round_trip_through_read_stl() {
    // A textual file is no sound binary stream, so the detecting reader
    // falls back to the textual decoder.
    let mesh = sample_mesh();
    let bytes = StlParser::write_to_ascii_file(&mesh);
    let back = StlParser::read_stl(&bytes).unwrap();
    assert_eq!(back, mesh);
}

#[test]
fn read_stl_prefers_binary() {
    let mesh = sample_mesh();
    let bytes = StlParser::write_to_binary_file(&mesh);
    let back = StlParser::read_stl(&bytes).unwrap();
    assert_eq!(back, mesh);
}

#[test]
fn truncated_binary_fails() {
    // A file claiming 5 triangles with bytes for only 2 is refused whole.
    let mesh = vec![
        tri(v(0.0, 0.0, 1.0), v(0.0, 0.0, 0.0), v(1.0, 0.0, 0.0), v(0.0, 1.0, 0.0));
        5
    ];
    let mut bytes = StlParser::write_to_binary_file(&mesh);
    bytes.truncate(84 + 2 * 50);
    assert_eq!(StlParser::read_binary_stl(&bytes), Err(StlError::TruncatedBinary));
    match StlParser::read_stl(&bytes) {
        Err(StlError::AmbiguousFormat(bin, _ascii)) => {
            assert_eq!(*bin, StlError::TruncatedBinary);
        },
        other => panic!("expected an ambiguous-format error, got {:?}", other),
    }
}

#[test]
fn missing_solid_fails() {
    let text = b"surface thing\nfacet normal 0 0 1\n".to_vec();
    assert_eq!(StlParser::read_ascii_stl(&text), Err(StlError::MissingSolid));
    // The detecting reader must not silently hand back an empty mesh.
    assert!(StlParser::read_stl(&text).is_err());
}

#[test]
fn bad_float_token_is_named() {
    let text = b"solid s\nfacet normal 1 2 oops\nouter loop\nvertex 0 0 0\nvertex 1 0 0\nvertex 0 1 0\nendloop\nendfacet\nendsolid s\n".to_vec();
    assert_eq!(
        StlParser::read_ascii_stl(&text),
        Err(StlError::BadFloat(b"oops".to_vec())),
    );
}

#[test]
fn wrong_count_on_vertex_line() {
    let text = b"solid s\nfacet normal 0 0 1\nouter loop\nvertex 0 0\nvertex 1 0 0\nvertex 0 1 0\nendloop\nendfacet\nendsolid s\n".to_vec();
    assert_eq!(StlParser::read_ascii_stl(&text), Err(StlError::WrongCount));
}

#[test]
fn missing_vertex_line() {
    let text = b"solid s\nfacet normal 0 0 1\nouter loop\nvertex 0 0 0\n".to_vec();
    assert_eq!(StlParser::read_ascii_stl(&text), Err(StlError::MissingLine));
}

#[test]
fn whitespace_tolerant_ascii() {
    let text = b"solid anything here\n\n   facet normal 0.0 0.0 1.0\n  outer loop\n\tvertex 1.0 2.0 3.0\n   vertex 4.0 5.0 6.0\n vertex 7.0 8.0 9.0\n  endloop\n endfacet\n\nendsolid anything\n".to_vec();
    let mesh = StlParser::read_ascii_stl(&text).unwrap();
    assert_eq!(mesh.len(), 1);
    assert_eq!(mesh[0].normal, v(0.0, 0.0, 1.0));
    assert_eq!(mesh[0].vertices[0], v(1.0, 2.0, 3.0));
    assert_eq!(mesh[0].vertices[1], v(4.0, 5.0, 6.0));
    assert_eq!(mesh[0].vertices[2], v(7.0, 8.0, 9.0));
}

#[test]
fn empty_mesh_round_trips() {
    let mesh: Triangles = Vec::new();
    let bin = StlParser::write_to_binary_file(&mesh);
    assert_eq!(StlParser::read_binary_stl(&bin).unwrap(), mesh);
    let text = StlParser::write_to_ascii_file(&mesh);
    assert_eq!(StlParser::read_ascii_stl(&text).unwrap(), mesh);
}
