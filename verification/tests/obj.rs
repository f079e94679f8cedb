use rein::obj::{parse_obj, ObjError, ObjVertex};

#[test]
fn obj_errors() {
    assert!(matches!(parse_obj("v 0 0 x\n"), Err(ObjError::BadNumber { line: 1, .. })));
    assert!(matches!(
        parse_obj("v 0 0 0\nf 1 2 3\n"),
        Err(ObjError::IndexOutOfRange { line: 2, .. })
    ));
    assert!(matches!(
        parse_obj("v 0 0 0\nv 1 0 0\nf 1 2\n"),
        Err(ObjError::DegenerateFace { line: 3 })
    ));
    assert!(matches!(parse_obj("v 0 0 0\n"), Err(ObjError::Empty)));
}

#[test]
fn obj_quads_negative_indices_and_missing_normals() {
    let obj = "# a quad\nv 0 0 0\nv 1 0 0\nv 1 1 0\nv 0 1 0\nf 1 2 3 4\nf -4 -3 -2\n";
    let m = parse_obj(obj).unwrap();
    assert_eq!(m.positions.len(), 4);
    assert_eq!(m.vertices.len(), 4);
    assert_eq!(m.indices.len() / 3, 3);
    // The quad is fanned from its first corner; -4 .. -2 name the first three records.
    assert_eq!(m.indices, vec![0, 1, 2, 0, 2, 3, 0, 1, 2]);
    assert!(!m.all_have_normals);
}

#[test]
fn obj_keeps_supplied_normals_and_splits_by_normal() {
    let obj =
        "v 0 0 0\nv 1 0 0\nv 0 1 0\nvn 0 0 1\nvn 1 0 0\nf 1//1 2//1 3//1\nf 1//2 2//2 3//2\n";
    let m = parse_obj(obj).unwrap();
    // Same positions, two normals: six output vertices.
    assert_eq!(m.vertices.len(), 6);
    assert_eq!(m.vertices[0], ObjVertex { position: 0, normal: Some(0) });
    assert_eq!(m.vertices[3], ObjVertex { position: 0, normal: Some(1) });
    assert_eq!(m.normals[0].z, "1");
    assert_eq!(m.normals[1].x, "1");
    assert!(m.all_have_normals);
}

#[test]
fn obj_error_details() {
    match parse_obj("v 0 0 0\nf 1 2 3\n") {
        Err(ObjError::IndexOutOfRange { line, index }) => {
            assert_eq!(line, 2);
            assert_eq!(index, 1);
        },
        other => panic!("unexpected {:?}", other),
    }
    match parse_obj("v 1 2\n") {
        Err(ObjError::BadNumber { line, token }) => {
            assert_eq!(line, 1);
            assert_eq!(token, "");
        },
        other => panic!("unexpected {:?}", other),
    }
    match parse_obj("v 0 0 0\nv 1 0 0\nv 1 1 0\nf 1 2 x\n") {
        Err(ObjError::BadNumber { line, token }) => {
            assert_eq!(line, 4);
            assert_eq!(token, "x");
        },
        other => panic!("unexpected {:?}", other),
    }
    assert!(matches!(parse_obj(""), Err(ObjError::Empty)));
}

#[test]
fn obj_shares_equal_corners_and_reads_number_forms() {
    let obj = "v 1e3 -0.5 +2\r\nv .5 inf NaN\nv 0 0 0\nvt 0 0\nf 1/1 2/1 3/1\nf 3 2 1\n";
    let m = parse_obj(obj).unwrap();
    assert_eq!(m.positions.len(), 3);
    assert_eq!(m.positions[0].x, "1e3");
    assert_eq!(m.positions[1].y, "inf");
    assert_eq!(m.vertices.len(), 3);
    assert_eq!(m.indices, vec![0, 1, 2, 2, 1, 0]);
}
