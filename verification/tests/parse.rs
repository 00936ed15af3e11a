use glcore::mesh::{Mesh, ParseErrorKind, Scalar, Vertex};

fn value(s: &Scalar) -> f32 {
    std::str::from_utf8(s.as_bytes().as_slice())
        .expect("coordinate tokens are ascii")
        .parse::<f32>()
        .expect("validated tokens parse as floats")
}

fn positions(v: &Vertex) -> (f32, f32, f32) {
    (value(&v.px), value(&v.py), value(&v.pz))
}

fn texcoords(v: &Vertex) -> (f32, f32) {
    (value(&v.tu), value(&v.tv))
}

fn normals(v: &Vertex) -> (f32, f32, f32) {
    (value(&v.nx), value(&v.ny), value(&v.nz))
}

#[test]
fn single_triangle_resolves_exactly() {
    let text = "v 0 0 0\nv 1 0 0\nv 0 1 0\nvt 0 0\nvt 1 0\nvt 0 1\nvn 0 0 1\nf 1/1/1 2/2/1 3/3/1\n";
    let mesh = Mesh::from_str(text).expect("valid mesh parses");
    assert_eq!(mesh.vertex_count(), 3);
    assert_eq!(positions(&mesh.buf[0]), (0.0, 0.0, 0.0));
    assert_eq!(positions(&mesh.buf[1]), (1.0, 0.0, 0.0));
    assert_eq!(positions(&mesh.buf[2]), (0.0, 1.0, 0.0));
    assert_eq!(texcoords(&mesh.buf[0]), (0.0, 0.0));
    assert_eq!(texcoords(&mesh.buf[1]), (1.0, 0.0));
    assert_eq!(texcoords(&mesh.buf[2]), (0.0, 1.0));
    assert_eq!(normals(&mesh.buf[0]), (0.0, 0.0, 1.0));
    assert_eq!(normals(&mesh.buf[1]), (0.0, 0.0, 1.0));
    assert_eq!(normals(&mesh.buf[2]), (0.0, 0.0, 1.0));
}

#[test]
fn vertex_count_is_a_multiple_of_three() {
    let two_faces =
        "v 0 0 0\nv 1 0 0\nv 0 1 0\nv 1 1 0\nvt 0 0\nvn 0 0 1\nf 1/1/1 2/1/1 3/1/1\nf 2/1/1 4/1/1 3/1/1\n";
    let mesh = Mesh::from_str(two_faces).expect("valid mesh parses");
    assert_eq!(mesh.vertex_count(), 6);
    assert_eq!(mesh.vertex_count() % 3, 0);

    let empty = Mesh::from_str("").expect("empty text parses");
    assert_eq!(empty.vertex_count(), 0);

    let no_faces = Mesh::from_str("v 1 2 3\nvt 0 0\nvn 0 0 1\n").expect("parses");
    assert_eq!(no_faces.vertex_count(), 0);
}

#[test]
fn non_numeric_face_index_is_an_error() {
    let text = "v 0 0 0\nvt 0 0\nvn 0 0 1\nf a/1/1 1/1/1 1/1/1\n";
    let err = Mesh::from_str(text).expect_err("non-numeric index must fail");
    assert_eq!(err.kind, ParseErrorKind::BadNumber);
    assert_eq!(err.line, 4);
}

#[test]
fn non_numeric_middle_and_trailing_components_are_errors() {
    let middle = "v 0 0 0\nvt 0 0\nvn 0 0 1\nf 1/x/1 1/1/1 1/1/1\n";
    assert_eq!(
        Mesh::from_str(middle).unwrap_err().kind,
        ParseErrorKind::BadNumber
    );
    // a third component with an extra slash is not a number either
    let extra = "v 0 0 0\nvt 0 0\nvn 0 0 1\nf 1/1/1 1/1/1/2 1/1/1\n";
    assert_eq!(
        Mesh::from_str(extra).unwrap_err().kind,
        ParseErrorKind::BadNumber
    );
    // an index too large for the machine word is rejected, not wrapped
    let huge = "v 0 0 0\nvt 0 0\nvn 0 0 1\nf 99999999999999999999999/1/1 1/1/1 1/1/1\n";
    assert_eq!(
        Mesh::from_str(huge).unwrap_err().kind,
        ParseErrorKind::BadNumber
    );
}

#[test]
fn out_of_range_face_index_is_an_error() {
    let past_positions = "v 0 0 0\nvt 0 0\nvn 0 0 1\nf 2/1/1 1/1/1 1/1/1\n";
    let err = Mesh::from_str(past_positions).expect_err("index past the list must fail");
    assert_eq!(err.kind, ParseErrorKind::OutOfRange);
    assert_eq!(err.line, 4);

    let past_texcoords = "v 0 0 0\nvt 0 0\nvn 0 0 1\nf 1/2/1 1/1/1 1/1/1\n";
    assert_eq!(
        Mesh::from_str(past_texcoords).unwrap_err().kind,
        ParseErrorKind::OutOfRange
    );

    let past_normals = "v 0 0 0\nvt 0 0\nvn 0 0 1\nf 1/1/2 1/1/1 1/1/1\n";
    assert_eq!(
        Mesh::from_str(past_normals).unwrap_err().kind,
        ParseErrorKind::OutOfRange
    );

    // indices are 1-based; zero is out of range, never a silent default
    let zero = "v 0 0 0\nvt 0 0\nvn 0 0 1\nf 0/1/1 1/1/1 1/1/1\n";
    assert_eq!(
        Mesh::from_str(zero).unwrap_err().kind,
        ParseErrorKind::OutOfRange
    );

    // a face before any declarations indexes empty lists
    let early = "f 1/1/1 1/1/1 1/1/1\nv 0 0 0\n";
    let err = Mesh::from_str(early).unwrap_err();
    assert_eq!(err.kind, ParseErrorKind::OutOfRange);
    assert_eq!(err.line, 1);
}

#[test]
fn non_triangular_faces_are_errors() {
    let two = "v 0 0 0\nvt 0 0\nvn 0 0 1\nf 1/1/1 1/1/1\n";
    assert_eq!(Mesh::from_str(two).unwrap_err().kind, ParseErrorKind::BadFace);
    let four = "v 0 0 0\nvt 0 0\nvn 0 0 1\nf 1/1/1 1/1/1 1/1/1 1/1/1\n";
    assert_eq!(
        Mesh::from_str(four).unwrap_err().kind,
        ParseErrorKind::BadFace
    );
    let no_slashes = "v 0 0 0\nvt 0 0\nvn 0 0 1\nf 1 1 1\n";
    assert_eq!(
        Mesh::from_str(no_slashes).unwrap_err().kind,
        ParseErrorKind::BadFace
    );
    let one_slash = "v 0 0 0\nvt 0 0\nvn 0 0 1\nf 1/1 1/1 1/1\n";
    assert_eq!(
        Mesh::from_str(one_slash).unwrap_err().kind,
        ParseErrorKind::BadFace
    );
}

#[test]
fn short_coordinate_lines_are_errors() {
    let err = Mesh::from_str("v 1 2\n").unwrap_err();
    assert_eq!(err.kind, ParseErrorKind::MissingCoord);
    assert_eq!(err.line, 1);
    assert_eq!(
        Mesh::from_str("vt 1\n").unwrap_err().kind,
        ParseErrorKind::MissingCoord
    );
    assert_eq!(
        Mesh::from_str("vn 1 2\n").unwrap_err().kind,
        ParseErrorKind::MissingCoord
    );
}

#[test]
fn coordinate_number_grammar() {
    // signs, fractions and exponents are all accepted
    let ok = "v 1e2 -0.5 .5\nvt 1. +2\nvn -1E-3 0 3.25e+1\n";
    let mesh = Mesh::from_str(ok).expect("grammar accepts these");
    assert_eq!(mesh.vertex_count(), 0);

    assert_eq!(
        Mesh::from_str("v 1.2.3 0 0\n").unwrap_err().kind,
        ParseErrorKind::BadNumber
    );
    assert_eq!(
        Mesh::from_str("v abc 0 0\n").unwrap_err().kind,
        ParseErrorKind::BadNumber
    );
    assert_eq!(
        Mesh::from_str("v --1 0 0\n").unwrap_err().kind,
        ParseErrorKind::BadNumber
    );
    assert_eq!(
        Mesh::from_str("v 1e 0 0\n").unwrap_err().kind,
        ParseErrorKind::BadNumber
    );
    assert_eq!(
        Mesh::from_str("v . 0 0\n").unwrap_err().kind,
        ParseErrorKind::BadNumber
    );
    assert_eq!(
        Mesh::from_str("vt 0 1x\n").unwrap_err().kind,
        ParseErrorKind::BadNumber
    );
}

#[test]
fn unknown_and_blank_lines_are_ignored() {
    let text = "# a comment\n\no object\nusemtl stone\nvp 1 2 3\nv 0 0 0\nv 1 0 0\nv 0 1 0\nvt 0 0\nvn 0 0 1\nf 1/1/1 2/1/1 3/1/1\n";
    let mesh = Mesh::from_str(text).expect("unknown directives are ignored");
    assert_eq!(mesh.vertex_count(), 3);
}

#[test]
fn extra_coordinates_are_ignored() {
    // only the first three (or two) coordinate tokens count
    let text = "v 1 2 3 4\nvt 0 0 9\nvn 0 0 1 8\n";
    let mesh = Mesh::from_str(text).expect("extras ignored");
    assert_eq!(mesh.vertex_count(), 0);
}

#[test]
fn crlf_and_trailing_whitespace_are_tolerated() {
    let text = "v 0 0 0\r\nv 1 0 0\r\nv 0 1 0\r\nvt 0 0\r\nvn 0 0 1\r\nf 1/1/1 2/1/1 3/1/1\r\n";
    let mesh = Mesh::from_str(text).expect("crlf line ends parse");
    assert_eq!(mesh.vertex_count(), 3);
    let spaced = "  v   0\t0  0  \nvt 0 0\nvn 0 0 1\n";
    let mesh = Mesh::from_str(spaced).expect("leading and repeated whitespace parse");
    assert_eq!(mesh.vertex_count(), 0);
}

#[test]
fn missing_trailing_newline_is_fine() {
    let text = "v 0 0 0\nv 1 0 0\nv 0 1 0\nvt 0 0\nvn 0 0 1\nf 1/1/1 2/1/1 3/1/1";
    let mesh = Mesh::from_str(text).expect("final line needs no newline");
    assert_eq!(mesh.vertex_count(), 3);
    let err = Mesh::from_str("v 0 0 0\nv x 0 0").unwrap_err();
    assert_eq!(err.line, 2);
}

#[test]
fn error_reports_first_offending_line() {
    let text = "v 0 0 0\nv x 0 0\nv bad bad bad\n";
    let err = Mesh::from_str(text).unwrap_err();
    assert_eq!(err.line, 2);
    assert_eq!(err.kind, ParseErrorKind::BadNumber);
}

#[test]
fn flat_tokens_come_in_upload_order() {
    let text = "v 1 2 3\nvt 4 5\nvn 6 7 8\nf 1/1/1 1/1/1 1/1/1\n";
    let mesh = Mesh::from_str(text).expect("parses");
    let flat = mesh.flat_tokens();
    assert_eq!(flat.len(), 3 * 8);
    let expected: Vec<&[u8]> = vec![b"1", b"2", b"3", b"4", b"5", b"6", b"7", b"8"];
    for (i, token) in flat.iter().enumerate() {
        assert_eq!(token.as_slice(), expected[i % 8]);
    }
}

#[test]
fn face_vertices_copy_tokens_verbatim() {
    // tokens are carried through untouched: `1.50` stays `1.50`
    let text = "v 1.50 +2 3e0\nvt .5 0\nvn 0 0 1\nf 1/1/1 1/1/1 1/1/1\n";
    let mesh = Mesh::from_str(text).expect("parses");
    assert_eq!(mesh.buf[0].px.as_bytes().as_slice(), b"1.50");
    assert_eq!(mesh.buf[0].py.as_bytes().as_slice(), b"+2");
    assert_eq!(mesh.buf[0].pz.as_bytes().as_slice(), b"3e0");
    assert_eq!(mesh.buf[0].tu.as_bytes().as_slice(), b".5");
    assert_eq!(mesh.buf[1].nx.as_bytes().as_slice(), b"0");
}
