//! Tests for `.obj` reading and writing.

use topoflow::io::format::{mesh_format, MeshFormat};
use topoflow::io::lex::{parse_u32, split_at_byte, split_whitespace};
use topoflow::io::obj::{parse_obj_line, ObjFace, ObjIndexLists, ObjLine, ObjLineError};
use topoflow::io::{ObjExporter, ObjLoader};
use topoflow::mesh::{HalfEdgeMesh, MeshError};

fn coord(word: &[u8], what: &str) -> Result<f32, MeshError> {
    std::str::from_utf8(word)
        .ok()
        .and_then(|s| s.parse::<f32>().ok())
        .ok_or_else(|| MeshError::IoError(format!("Invalid {}", what)))
}

fn line_error(e: ObjLineError) -> MeshError {
    let text = |w: &Vec<u8>| String::from_utf8_lossy(w).into_owned();
    match e {
        ObjLineError::InvalidVertexIndex(w) => MeshError::IoError(format!("Invalid face vertex index: {}", text(&w))),
        ObjLineError::ZeroVertexIndex => MeshError::IoError("0 is not a valid 1-based index".to_string()),
        ObjLineError::InvalidTexcoordIndex(w) => {
            MeshError::IoError(format!("Invalid face texcoord index: {}", text(&w)))
        },
        ObjLineError::InvalidNormalIndex(w) => MeshError::IoError(format!("Invalid face normal index: {}", text(&w))),
        ObjLineError::IndexUnderflow => panic!("attempt to subtract with overflow"),
    }
}

/// Read `.obj` text into a mesh whose vertices carry their positions.
fn load(text: &str) -> Result<HalfEdgeMesh<[f32; 3]>, MeshError> {
    let mut positions: Vec<[f32; 3]> = Vec::new();
    let mut normals: Vec<[f32; 3]> = Vec::new();
    let mut uvs: Vec<[f32; 2]> = Vec::new();
    let mut lists = ObjIndexLists::new();
    for line in text.lines() {
        match parse_obj_line(line.as_bytes()).map_err(line_error)? {
            ObjLine::Position(x, y, z) => {
                positions.push([coord(&x, "vertex x")?, coord(&y, "vertex y")?, coord(&z, "vertex z")?])
            },
            ObjLine::Normal(x, y, z) => {
                normals.push([coord(&x, "normal x")?, coord(&y, "normal y")?, coord(&z, "normal z")?])
            },
            ObjLine::TexCoord(u, v) => uvs.push([coord(&u, "uv u")?, coord(&v, "uv v")?]),
            ObjLine::Face(f) => lists.add_face(f),
            ObjLine::Skip => {},
        }
    }
    let vn = ObjLoader::per_vertex_attribute(&lists.faces, &lists.face_normals, normals, [0.0, 0.0, 1.0]);
    let vt = ObjLoader::per_vertex_attribute(&lists.faces, &lists.face_texcoords, uvs, [0.0, 0.0]);
    if let Some(n) = &vn {
        assert!(n.len() >= positions.len());
    }
    if let Some(t) = &vt {
        assert!(t.len() >= positions.len());
    }
    ObjLoader::build_mesh(&positions, &lists.faces)
}

fn export(mesh: &HalfEdgeMesh<[f32; 3]>) -> String {
    let mut out = ObjExporter::header(mesh);
    for (_, v) in mesh.vertices() {
        out.push_str(&format!("v {} {} {}\n", v.position[0], v.position[1], v.position[2]));
    }
    out.push_str(&ObjExporter::face_section(mesh, false, false));
    out
}

#[test]
fn test_obj_load_triangle() {
    let obj_data = r#"
# Simple triangle
v 0.0 0.0 0.0
v 1.0 0.0 0.0
v 0.5 1.0 0.0
f 1 2 3
"#;
    let mesh = load(obj_data).expect("Should parse OBJ");

    assert_eq!(mesh.vertex_count(), 3);
    assert_eq!(mesh.face_count(), 1);
}

#[test]
fn test_obj_load_quad() {
    let obj_data = r#"
# Simple quad
v 0.0 0.0 0.0
v 1.0 0.0 0.0
v 1.0 1.0 0.0
v 0.0 1.0 0.0
f 1 2 3 4
"#;
    let mesh = load(obj_data).expect("Should parse OBJ quad");

    assert_eq!(mesh.vertex_count(), 4);
    assert_eq!(mesh.face_count(), 1);
}

#[test]
fn test_obj_with_normals_and_uvs() {
    let obj_data = r#"
v 0.0 0.0 0.0
v 1.0 0.0 0.0
v 0.5 1.0 0.0
vn 0.0 0.0 1.0
vn 0.0 0.0 1.0
vn 0.0 0.0 1.0
vt 0.0 0.0
vt 1.0 0.0
vt 0.5 1.0
f 1/1/1 2/2/2 3/3/3
"#;
    let mesh = load(obj_data).expect("Should parse OBJ with attributes");

    assert_eq!(mesh.vertex_count(), 3);
}

#[test]
fn test_obj_export_import() {
    let obj_data = r#"
v 0.0 0.0 0.0
v 1.0 0.0 0.0
v 0.5 1.0 0.0
f 1 2 3
"#;
    let mesh = load(obj_data).unwrap();

    let output_str = export(&mesh);
    assert!(output_str.contains("v 0 0 0"));
    assert!(output_str.contains("f 1 2 3"));
}

#[test]
fn test_export_header_and_face_records() {
    let mesh = load("v 0 0 0\nv 1 0 0\nv 1 1 0\nv 0 1 0\nf 1 2 3 4\n").unwrap();
    assert_eq!(ObjExporter::header(&mesh), "# TopoFlow exported OBJ\n# Vertices: 4\n# Faces: 1\n\n");
    assert_eq!(ObjExporter::face_section(&mesh, false, false), "\nf 1 2 3 4\n");
    assert_eq!(ObjExporter::face_section(&mesh, true, true), "\nf 1/1/1 2/2/2 3/3/3 4/4/4\n");
    assert_eq!(ObjExporter::face_section(&mesh, false, true), "\nf 1/1 2/2 3/3 4/4\n");
    assert_eq!(ObjExporter::face_section(&mesh, true, false), "\nf 1//1 2//2 3//3 4//4\n");
}

#[test]
fn test_export_then_import_gives_the_same_faces() {
    let text = "v 0 0 0\nv 1 0 0\nv 1 1 0\nv 0 1 0\nv 2 0 0\nf 1 2 3 4\nf 2 5 3\n";
    let mesh = load(text).unwrap();
    let again = load(&export(&mesh)).unwrap();
    assert_eq!(again.vertex_count(), 5);
    assert_eq!(again.face_count(), 2);
    for k in 0..2u32 {
        let a: Vec<u32> = mesh.face_vertices(topoflow::mesh::FaceId(k)).iter().map(|v| v.0).collect();
        let b: Vec<u32> = again.face_vertices(topoflow::mesh::FaceId(k)).iter().map(|v| v.0).collect();
        assert_eq!(a, b);
    }
}

#[test]
fn test_parse_lines() {
    assert!(matches!(parse_obj_line(b"   "), Ok(ObjLine::Skip)));
    assert!(matches!(parse_obj_line(b"  # v 1 2 3"), Ok(ObjLine::Skip)));
    assert!(matches!(parse_obj_line(b"usemtl stone"), Ok(ObjLine::Skip)));
    assert!(matches!(parse_obj_line(b"v 1 2"), Ok(ObjLine::Skip)));
    match parse_obj_line(b"\tv  1.5 -2 3e1 1.0") {
        Ok(ObjLine::Position(x, y, z)) => {
            assert_eq!((x.as_slice(), y.as_slice(), z.as_slice()), (&b"1.5"[..], &b"-2"[..], &b"3e1"[..]))
        },
        _ => panic!("expected a position"),
    }
    match parse_obj_line(b"vt 0.25 0.75 0") {
        Ok(ObjLine::TexCoord(u, v)) => assert_eq!((u.as_slice(), v.as_slice()), (&b"0.25"[..], &b"0.75"[..])),
        _ => panic!("expected a texture coordinate"),
    }
    match parse_obj_line("f 1/2/3 4//6 7/8 +9\u{3000}".as_bytes()) {
        Ok(ObjLine::Face(ObjFace { vertices, texcoords, normals })) => {
            assert_eq!(vertices, vec![0, 3, 6, 8]);
            assert_eq!(texcoords, vec![1, 7]);
            assert_eq!(normals, vec![2, 5]);
        },
        _ => panic!("expected a face"),
    }
    assert!(matches!(parse_obj_line(b"f 1 2"), Ok(ObjLine::Skip)));
}

#[test]
fn test_parse_line_errors() {
    assert!(matches!(parse_obj_line(b"f 1 x 3"), Err(ObjLineError::InvalidVertexIndex(w)) if w == b"x"));
    assert!(matches!(parse_obj_line(b"f 1 2 -3"), Err(ObjLineError::InvalidVertexIndex(w)) if w == b"-3"));
    assert!(matches!(parse_obj_line(b"f 1 0 3"), Err(ObjLineError::ZeroVertexIndex)));
    assert!(matches!(parse_obj_line(b"f 1/a 2 3"), Err(ObjLineError::InvalidTexcoordIndex(w)) if w == b"a"));
    assert!(matches!(parse_obj_line(b"f 1//b 2 3"), Err(ObjLineError::InvalidNormalIndex(w)) if w == b"b"));
    assert!(matches!(parse_obj_line(b"f 1/0 2 3"), Err(ObjLineError::IndexUnderflow)));
    assert!(matches!(parse_obj_line(b"f 1 2 3 # note"), Err(ObjLineError::InvalidVertexIndex(w)) if w == b"#"));
    assert!(matches!(parse_obj_line(b"f 4294967296 2 3"), Err(ObjLineError::InvalidVertexIndex(_))));
}

#[test]
fn test_load_reports_the_first_error() {
    match load("v 0 0 0\nf 1 q 3\n") {
        Err(MeshError::IoError(msg)) => assert_eq!(msg, "Invalid face vertex index: q"),
        _ => panic!("expected an error"),
    }
    match load("v 0 0 0\nf 0 1 2\n") {
        Err(MeshError::IoError(msg)) => assert_eq!(msg, "0 is not a valid 1-based index"),
        _ => panic!("expected an error"),
    }
}

#[test]
fn test_lexing() {
    let words = split_whitespace(" ab\u{00a0}c\n d ".as_bytes());
    assert_eq!(words, vec![b"ab".to_vec(), b"c".to_vec(), b"d".to_vec()]);
    assert_eq!(split_at_byte(b"1//3", b'/'), vec![b"1".to_vec(), Vec::new(), b"3".to_vec()]);
    assert_eq!(parse_u32(b"+42"), Some(42));
    assert_eq!(parse_u32(b"007"), Some(7));
    assert_eq!(parse_u32(b"4294967295"), Some(u32::MAX));
    assert_eq!(parse_u32(b"4294967296"), None);
    assert_eq!(parse_u32(b"+"), None);
    assert_eq!(parse_u32(b""), None);
    assert_eq!(parse_u32(b"1 2"), None);
}

#[test]
fn test_remove_duplicate_faces() {
    let faces = vec![vec![0, 1, 2], vec![2, 1, 0], vec![1, 2, 3], vec![0, 2, 1], vec![3, 2, 1]];
    assert_eq!(ObjLoader::remove_duplicate_faces(&faces), vec![vec![0, 1, 2], vec![1, 2, 3]]);
    let repeated = vec![vec![1, 1, 2], vec![1, 2, 2]];
    assert_eq!(ObjLoader::remove_duplicate_faces(&repeated), repeated);
}

#[test]
fn test_build_mesh_retries_without_repeated_faces() {
    let positions = vec![[0.0f32, 0.0, 0.0], [1.0, 0.0, 0.0], [0.0, 1.0, 0.0]];
    let faces = vec![vec![0, 1, 2], vec![1, 2, 0]];
    assert!(HalfEdgeMesh::from_indexed_faces(&positions, &faces).is_err());
    let mesh = ObjLoader::build_mesh(&positions, &faces).expect("the repeat is dropped");
    assert_eq!(mesh.face_count(), 1);
}

#[test]
fn test_build_per_vertex_attribute() {
    let faces = vec![vec![0, 1, 2], vec![0, 2, 3]];
    let attr_faces = vec![vec![2, 9, 0]];
    let values = [10, 20, 30];
    let r = ObjLoader::build_per_vertex_attribute(&faces, &attr_faces, &values, -1).unwrap();
    assert_eq!(r, vec![30, -1, 10, -1, -1, -1]);
    // Each vertex gets the value its own corner names.
    let r = ObjLoader::build_per_vertex_attribute(&[vec![1, 2, 0]], &[vec![0, 1, 2]], &[10, 20, 30], -1).unwrap();
    assert_eq!(r, vec![30, 10, 20]);
    // Vertices named by no corner keep the default; the list covers every vertex named.
    let r = ObjLoader::build_per_vertex_attribute(&[vec![5, 6, 7]], &[vec![0, 0, 1]], &[10, 20], -1).unwrap();
    assert_eq!(r, vec![-1, -1, -1, -1, -1, 10, 10, 20]);
    assert_eq!(ObjLoader::per_vertex_attribute(&faces, &[], vec![5, 6], 0), Some(vec![5, 6]));
    assert_eq!(ObjLoader::per_vertex_attribute(&faces, &[], Vec::<i32>::new(), 0), None);
}

#[test]
fn test_index_lists_keep_attribute_lists_of_faces_that_have_them() {
    let mut lists = ObjIndexLists::new();
    lists.add_face(ObjFace { vertices: vec![0, 1, 2], texcoords: vec![], normals: vec![4, 5, 6] });
    lists.add_face(ObjFace { vertices: vec![2, 1, 3], texcoords: vec![7, 8, 9], normals: vec![] });
    assert_eq!(lists.faces.len(), 2);
    assert_eq!(lists.face_normals, vec![vec![4, 5, 6]]);
    assert_eq!(lists.face_texcoords, vec![vec![7, 8, 9]]);
}

#[test]
fn test_mesh_format_by_extension() {
    assert_eq!(mesh_format(b"obj"), Some(MeshFormat::Obj));
    assert_eq!(mesh_format(b"OBJ"), Some(MeshFormat::Obj));
    assert_eq!(mesh_format(b"Blend"), Some(MeshFormat::Blend));
    assert_eq!(mesh_format(b"ply"), None);
    assert_eq!(mesh_format(b""), None);
    assert_eq!(mesh_format(b"objx"), None);
}

#[test]
fn test_texture_coordinates_follow_their_vertices() {
    let text = "v 0 0 0\nv 1 0 0\nv 0 1 0\nvt 0 0\nvt 1 0\nvt 0 1\nf 2/1 3/2 1/3\n";
    let mut uvs: Vec<[f32; 2]> = Vec::new();
    let mut lists = ObjIndexLists::new();
    for line in text.lines() {
        match parse_obj_line(line.as_bytes()).unwrap() {
            ObjLine::TexCoord(u, v) => uvs.push([coord(&u, "uv u").unwrap(), coord(&v, "uv v").unwrap()]),
            ObjLine::Face(f) => lists.add_face(f),
            _ => {},
        }
    }
    let vt = ObjLoader::per_vertex_attribute(&lists.faces, &lists.face_texcoords, uvs, [0.0, 0.0]).unwrap();
    assert_eq!(vt[1], [0.0, 0.0]);
    assert_eq!(vt[2], [1.0, 0.0]);
    assert_eq!(vt[0], [0.0, 1.0]);
}
