use torus_grid_cutter::mesh::obj_loader::{assemble_faces, classify_obj_line, parse_face_vert, FaceVert, ObjLine};

#[test]
fn test_parse_face_vert() {
    let fv = parse_face_vert("1/2").unwrap();
    assert_eq!(fv.pos, 0);
    assert_eq!(fv.uv, Some(1));

    let fv = parse_face_vert("5").unwrap();
    assert_eq!(fv.pos, 4);
    assert_eq!(fv.uv, None);

    let fv = parse_face_vert("3/4/5").unwrap();
    assert_eq!(fv.pos, 2);
    assert_eq!(fv.uv, Some(3));
}

#[test]
fn parse_face_vert_rejects_bad_corners() {
    assert_eq!(parse_face_vert(""), None);
    assert_eq!(parse_face_vert("0"), None);
    assert_eq!(parse_face_vert("x/1"), None);
    assert_eq!(parse_face_vert("2/y"), None);
    assert_eq!(parse_face_vert("-1"), None);
    assert_eq!(parse_face_vert("99999999999999999999999"), None);
}

#[test]
fn parse_face_vert_edge_cases() {
    assert_eq!(parse_face_vert("+7"), Some(FaceVert { pos: 6, uv: None }));
    assert_eq!(parse_face_vert("4//9"), Some(FaceVert { pos: 3, uv: None }));
    assert_eq!(parse_face_vert("4/0"), Some(FaceVert { pos: 3, uv: None }));
    assert_eq!(parse_face_vert("4/2/junk"), Some(FaceVert { pos: 3, uv: Some(1) }));
    assert_eq!(parse_face_vert("12/"), Some(FaceVert { pos: 11, uv: None }));
}

#[test]
fn assemble_faces_shares_repeated_corners_and_fans_polygons() {
    let a = FaceVert { pos: 0, uv: Some(0) };
    let b = FaceVert { pos: 1, uv: Some(1) };
    let c = FaceVert { pos: 2, uv: Some(2) };
    let d = FaceVert { pos: 3, uv: Some(3) };
    let b2 = FaceVert { pos: 1, uv: None };
    let faces = vec![vec![a, b, c, d], vec![c, b, b2]];
    let (keys, tris) = assemble_faces(&faces);
    assert_eq!(keys, vec![a, b, c, d, b2]);
    assert_eq!(tris, vec![(0, 1, 2), (0, 2, 3), (2, 1, 4)]);
}

#[test]
fn obj_lines_are_read_by_their_first_word() {
    match classify_obj_line("  v 1.0 -2.5\t3 4") {
        ObjLine::Position(x, y, z) => assert_eq!((x.as_str(), y.as_str(), z.as_str()), ("1.0", "-2.5", "3")),
        _ => panic!("expected a position"),
    }
    match classify_obj_line("vt 0.25 0.75") {
        ObjLine::TexCoord(u, v) => assert_eq!((u.as_str(), v.as_str()), ("0.25", "0.75")),
        _ => panic!("expected texture coordinates"),
    }
    match classify_obj_line("f 1/1 2/2 bad 3/3 4//7") {
        ObjLine::Face(vs) => {
            assert_eq!(vs.len(), 4);
            assert_eq!(vs[0], FaceVert { pos: 0, uv: Some(0) });
            assert_eq!(vs[3], FaceVert { pos: 3, uv: None });
        }
        _ => panic!("expected a face"),
    }
    assert!(matches!(classify_obj_line(""), ObjLine::Skip));
    assert!(matches!(classify_obj_line("   # v 1 2 3"), ObjLine::Skip));
    assert!(matches!(classify_obj_line("v 1 2"), ObjLine::Skip));
    assert!(matches!(classify_obj_line("vt 1"), ObjLine::Skip));
    assert!(matches!(classify_obj_line("f 1 2"), ObjLine::Skip));
    assert!(matches!(classify_obj_line("vn 0 0 1"), ObjLine::Skip));
    assert!(matches!(classify_obj_line("v\u{3000}1 2 3"), ObjLine::Position(..)));
}
