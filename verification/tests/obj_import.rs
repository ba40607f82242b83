use prestream::obj_parser::{parse_face, parse_vertex, FaceIndices, Mesh, ObjParseError};

fn toks(s: &str) -> Vec<Vec<char>> {
    s.split_whitespace().map(|t| t.chars().collect()).collect()
}

fn lines(s: &str) -> Vec<String> {
    s.lines().map(|l| l.to_string()).collect()
}

fn token_to_f32(t: &[char]) -> f32 {
    let s: String = t.iter().collect();
    s.parse::<f32>().expect("validated token must parse")
}

#[test]
fn test_valid_vertex_parse() {
    match parse_vertex(&toks("1.0 2.0 3.0")) {
        Ok(v) => {
            let expected = [1.0, 2.0, 3.0, 1.0];
            for (a, b) in v.iter().zip(expected) {
                assert!((token_to_f32(a) - b).abs() < 0.0001);
            }
        }
        _ => panic!("Unexpected vertex parse failure"),
    };

    match parse_vertex(&toks("1.0 2.0 3.0 2.0")) {
        Ok(v) => {
            let expected = [1.0, 2.0, 3.0, 2.0];
            for (a, b) in v.iter().zip(expected) {
                assert!((token_to_f32(a) - b).abs() < 0.0001);
            }
        }
        _ => panic!("Unexpected vertex parse failure"),
    };
}

#[test]
fn test_vertex_parse_invalid_float() {
    match parse_vertex(&toks("asdflka jdf")) {
        Ok(_) => panic!("Invalid vertices should not parse"),
        Err(ObjParseError::NonFloatVertex) => (),
        _ => panic!("Unexpected error type"),
    };

    match parse_vertex(&toks("1.0 jdf")) {
        Ok(_) => panic!("Invalid vertices should not parse"),
        Err(ObjParseError::NonFloatVertex) => (),
        _ => panic!("Unexpected error type"),
    };
}

#[test]
fn test_face_parse_with_slashes() {
    match parse_face(&toks("1/2/3 2/3/4 3/4/5")) {
        Ok(v) => assert_eq!(
            [
                FaceIndices {
                    vert: 0,
                    uv: 1,
                    norm: 2
                },
                FaceIndices {
                    vert: 1,
                    uv: 2,
                    norm: 3
                },
                FaceIndices {
                    vert: 2,
                    uv: 3,
                    norm: 4
                }
            ],
            v
        ),
        Err(e) => panic!("Unexpected face parse failure: {e:?}"),
    }
}

#[test]
fn test_face_parse_not_enough_elems() {
    match parse_face(&toks("1/1/1 2/2/2")) {
        Ok(_) => panic!("Face parse should have failed"),
        Err(ObjParseError::MissingFaceVert) => (),
        _ => panic!("Unexpected error for face parse"),
    }
}

#[test]
fn test_face_parse_invalid_index() {
    match parse_face(&toks("1.1/1/1 2/2/2 3/3/3")) {
        Ok(_) => panic!("Face parse should have failed"),
        Err(ObjParseError::InvalidFaceVert) => (),
        e => panic!("Unexpected error for face parse: {e:?}"),
    }
    match parse_face(&toks("1/1.2/1 2/2/2 3/3/3")) {
        Ok(_) => panic!("Face parse should have failed"),
        Err(ObjParseError::InvalidFaceUv) => (),
        e => panic!("Unexpected error for face parse: {e:?}"),
    }

    match parse_face(&toks("1/1/1 2/2/2 asdf/3/3")) {
        Ok(_) => panic!("Face parse should have failed"),
        Err(ObjParseError::InvalidFaceVert) => (),
        e => panic!("Unexpected error for face parse: {e:?}"),
    }
}

#[test]
fn non_triangular_faces_are_refused() {
    // a quad face must fail, not silently use its first three corners
    match parse_face(&toks("1/1/1 2/2/2 3/3/3 4/4/4")) {
        Err(ObjParseError::NonTriangularFace) => (),
        r => panic!("expected a non-triangular face error: {r:?}"),
    }
    match parse_face(&toks("1/1/1 2/2/2 3/3/3 4/4/4 5/5/5")) {
        Err(ObjParseError::NonTriangularFace) => (),
        r => panic!("expected a non-triangular face error: {r:?}"),
    }
    assert!(matches!(
        Mesh::from_obj_file(&lines(
            "v 0 0 0\nv 1 0 0\nv 1 1 0\nv 0 1 0\nvt 0 0\nvn 0 0 1\nf 1/1/1 2/1/1 3/1/1 4/1/1"
        )),
        Err(ObjParseError::NonTriangularFace)
    ));
}

#[test]
fn face_index_zero_is_invalid() {
    match parse_face(&toks("0/1/1 2/2/2 3/3/3")) {
        Err(ObjParseError::InvalidFaceVert) => (),
        r => panic!("expected an invalid vertex index: {r:?}"),
    }
    match parse_face(&toks("1/1/0 2/2/2 3/3/3")) {
        Err(ObjParseError::InvalidFaceNorm) => (),
        r => panic!("expected an invalid normal index: {r:?}"),
    }
}

/// A unit cube with one shared uv and one shared normal per corner: every
/// corner triple collapses onto its position.
const SHARED_CUBE: &str = "\
v -1 -1 -1
v 1 -1 -1
v 1 1 -1
v -1 1 -1
v -1 -1 1
v 1 -1 1
v 1 1 1
v -1 1 1
vt 0 0
vn 0 0 1
f 1/1/1 2/1/1 3/1/1
f 1/1/1 3/1/1 4/1/1
f 5/1/1 7/1/1 6/1/1
f 5/1/1 8/1/1 7/1/1
f 1/1/1 5/1/1 6/1/1
f 1/1/1 6/1/1 2/1/1
f 2/1/1 6/1/1 7/1/1
f 2/1/1 7/1/1 3/1/1
f 3/1/1 7/1/1 8/1/1
f 3/1/1 8/1/1 4/1/1
f 4/1/1 8/1/1 5/1/1
f 4/1/1 5/1/1 1/1/1
";

#[test]
fn cube_shared_corners_dedup_to_eight() {
    let mesh = Mesh::from_obj_file(&lines(SHARED_CUBE)).expect("cube must load");
    assert_eq!(mesh.vertices.len(), 8);
    assert_eq!(mesh.faces.len(), 12);
    let index_count: usize = mesh.faces.iter().map(|f| f.len()).sum();
    assert_eq!(index_count, 36);
    // the merged vertices keep their components, in first-occurrence order
    assert!((token_to_f32(&mesh.vertices[0].vert[0]) - -1.0).abs() < 1e-6);
    assert!((token_to_f32(&mesh.vertices[1].vert[0]) - 1.0).abs() < 1e-6);
    assert!((token_to_f32(&mesh.vertices[0].vert[3]) - 1.0).abs() < 1e-6);
    assert_eq!(mesh.faces[0], [0, 1, 2]);
    assert_eq!(mesh.faces[1], [0, 2, 3]);
}

/// The same cube flat-shaded: each face has its own normal, so every
/// corner belongs to three distinct (position, uv, normal) triples.
const FLAT_CUBE: &str = "\
v -1 -1 -1
v 1 -1 -1
v 1 1 -1
v -1 1 -1
v -1 -1 1
v 1 -1 1
v 1 1 1
v -1 1 1
vt 0 0
vn 0 0 -1
vn 0 0 1
vn 0 -1 0
vn 1 0 0
vn 0 1 0
vn -1 0 0
f 1/1/1 2/1/1 3/1/1
f 1/1/1 3/1/1 4/1/1
f 5/1/2 7/1/2 6/1/2
f 5/1/2 8/1/2 7/1/2
f 1/1/3 5/1/3 6/1/3
f 1/1/3 6/1/3 2/1/3
f 2/1/4 6/1/4 7/1/4
f 2/1/4 7/1/4 3/1/4
f 3/1/5 7/1/5 8/1/5
f 3/1/5 8/1/5 4/1/5
f 4/1/6 8/1/6 5/1/6
f 4/1/6 5/1/6 1/1/6
";

#[test]
fn cube_flat_shaded_dedups_to_twenty_four() {
    let mesh = Mesh::from_obj_file(&lines(FLAT_CUBE)).expect("cube must load");
    assert_eq!(mesh.vertices.len(), 24);
    let index_count: usize = mesh.faces.iter().map(|f| f.len()).sum();
    assert_eq!(index_count, 36);
    // every stored index points into the merged vertex list
    for f in &mesh.faces {
        for &ix in f {
            assert!((ix as usize) < mesh.vertices.len());
        }
    }
}

#[test]
fn importer_error_kinds() {
    // a line with no token at all
    assert!(matches!(
        Mesh::from_obj_file(&vec![String::new()]),
        Err(ObjParseError::MissingType)
    ));
    // too few position components
    assert!(matches!(
        Mesh::from_obj_file(&lines("v 1.0 2.0")),
        Err(ObjParseError::MissingVertex)
    ));
    // a non-numeric position component
    assert!(matches!(
        Mesh::from_obj_file(&lines("v a b c")),
        Err(ObjParseError::NonFloatVertex)
    ));
    // too few texture coordinates
    assert!(matches!(
        Mesh::from_obj_file(&lines("vt 1.0")),
        Err(ObjParseError::MissingTexCoord)
    ));
    // a non-numeric texture coordinate
    assert!(matches!(
        Mesh::from_obj_file(&lines("vt x y")),
        Err(ObjParseError::NonFloatTexCoord)
    ));
    // too few normal components
    assert!(matches!(
        Mesh::from_obj_file(&lines("vn 1.0 0.0")),
        Err(ObjParseError::MissingVertex)
    ));
    // a face with only two vertices
    assert!(matches!(
        Mesh::from_obj_file(&lines("f 1/1/1 2/2/2")),
        Err(ObjParseError::MissingFaceVert)
    ));
    // a malformed face index
    assert!(matches!(
        Mesh::from_obj_file(&lines("f 1/1/x 2/2/2 3/3/3")),
        Err(ObjParseError::InvalidFaceNorm)
    ));
    // a face index past the declared lists
    assert!(matches!(
        Mesh::from_obj_file(&lines("v 0 0 0\nvt 0 0\nvn 0 0 1\nf 1/1/1 2/1/1 1/1/1")),
        Err(ObjParseError::InvalidFaceVert)
    ));
    assert!(matches!(
        Mesh::from_obj_file(&lines("v 0 0 0\nvt 0 0\nvn 0 0 1\nf 1/1/1 1/2/1 1/1/1")),
        Err(ObjParseError::InvalidFaceUv)
    ));
    assert!(matches!(
        Mesh::from_obj_file(&lines("v 0 0 0\nvt 0 0\nvn 0 0 1\nf 1/1/1 1/1/2 1/1/1")),
        Err(ObjParseError::InvalidFaceNorm)
    ));
}

#[test]
fn importer_skips_unknown_records_and_defaults_w() {
    let src = "# comment line\no cube\nv 1 2 3\nv 4 5 6 7\nusemtl whatever";
    let mesh = Mesh::from_obj_file(&lines(src)).expect("unknown records are skipped");
    assert_eq!(mesh.vertices.len(), 0);
    assert_eq!(mesh.faces.len(), 0);
}

#[test]
fn numeric_token_grammar_matches_std() {
    // accepted float shapes survive the importer's validation
    for good in ["1", ".5", "5.", "1e5", "1.25E-3", "-inf", "NaN", "+0.0", "infinity"] {
        let line = format!("v {good} 0 0");
        assert!(
            Mesh::from_obj_file(&lines(&line)).is_ok(),
            "{good} should be accepted"
        );
        assert!(good.parse::<f32>().is_ok());
    }
    // rejected shapes fail exactly like the standard parser
    for bad in ["", ".", "1e", "1.2.3", "0x1", "1f", "in", "--1"] {
        let line = format!("v {bad} 0 0");
        let r = Mesh::from_obj_file(&lines(&line));
        if bad.is_empty() {
            // an absent token reads as a missing component instead
            assert!(matches!(r, Err(ObjParseError::MissingVertex)));
        } else {
            assert!(
                matches!(r, Err(ObjParseError::NonFloatVertex)),
                "{bad} should be refused"
            );
            assert!(bad.parse::<f32>().is_err());
        }
    }
}
