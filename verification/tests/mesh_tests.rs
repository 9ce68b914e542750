use gfx_assets::assembler::{assemble, AssemblyError, Pool};
use gfx_assets::canonical::write_text;
use gfx_assets::mesh_text::{
    parse, parse_index, parse_keyword, parse_record, parse_triple, Face, FaceIndexTriple, Keyword,
    MeshData, ParseError, Record,
};
use gfx_assets::model::{
    BufferSizes, Mesh, MeshError, Model, ModelBuilder, DEFAULT_TEXTURE_ID, NORMAL_BYTES,
    POSITION_BYTES, UV_BYTES,
};
use gfx_assets::text::{byte_is_space, line_end, tokenize, word_end, Span};
use gfx_assets::texture::Texture;
use gfx_assets::vertex::{Vec2, Vec3, Vertex};

const TRIANGLE: &str =
    "v 0 0 0\nv 1 0 0\nv 0 1 0\nvt 0 0\nvt 1 0\nvn 0 0 1\nf 1/1/1 2/2/1 3/1/1";

fn vec3(x: &str, y: &str, z: &str) -> Vec3 {
    Vec3::parse(x.as_bytes(), y.as_bytes(), z.as_bytes()).unwrap()
}

fn vec2(x: &str, y: &str) -> Vec2 {
    Vec2::parse(x.as_bytes(), y.as_bytes()).unwrap()
}

fn corner(position: u64, uv: u64, normal: u64) -> FaceIndexTriple {
    FaceIndexTriple { position, uv, normal }
}

fn malformed(line_number: usize, raw_text: &str) -> ParseError {
    ParseError::MalformedLine { line_number, raw_text: raw_text.as_bytes().to_vec() }
}

fn words(line: &str) -> Vec<String> {
    tokenize(line.as_bytes())
        .iter()
        .map(|span| line[span.start..span.end].to_string())
        .collect()
}

#[test]
fn triangle_parses_to_its_pools() {
    let data = parse(TRIANGLE.as_bytes()).unwrap();
    assert_eq!(data.positions, vec![vec3("0", "0", "0"), vec3("1", "0", "0"), vec3("0", "1", "0")]);
    assert_eq!(data.uvs, vec![vec2("0", "0"), vec2("1", "0")]);
    assert_eq!(data.normals, vec![vec3("0", "0", "1")]);
    assert_eq!(
        data.faces,
        vec![Face { first: corner(1, 1, 1), second: corner(2, 2, 1), third: corner(3, 1, 1) }]
    );
}

#[test]
fn triangle_assembles_in_corner_order() {
    let data = parse(TRIANGLE.as_bytes()).unwrap();
    let mesh = assemble(&data.positions, &data.uvs, &data.normals, &data.faces).unwrap();
    assert_eq!(
        mesh.vertices,
        vec![
            Vertex::new(vec3("0", "0", "0"), vec2("0", "0"), vec3("0", "0", "1")),
            Vertex::new(vec3("1", "0", "0"), vec2("1", "0"), vec3("0", "0", "1")),
            Vertex::new(vec3("0", "1", "0"), vec2("0", "0"), vec3("0", "0", "1")),
        ]
    );
    assert_eq!(Mesh::new(TRIANGLE.as_bytes()).unwrap(), mesh);
}

#[test]
fn vertex_count_is_three_times_the_face_lines() {
    let text = "v 0 0 0\nv 1 0 0\nv 0 1 0\nv 1 1 0\nvt 0 0\nvn 0 0 1\n\
                f 1/1/1 2/1/1 3/1/1\n# f 1/1/1 1/1/1 1/1/1\nf 2/1/1 4/1/1 3/1/1\n\
                  f   4/1/1\t3/1/1 1/1/1  \ng cube\nf 1/1/1 1/1/1 1/1/1\n";
    let mesh = Mesh::new(text.as_bytes()).unwrap();
    assert_eq!(mesh.vertices.len(), 3 * 4);
    assert_eq!(Mesh::new(b"v 1 2 3\nvt 0 0\nvn 0 0 1\n").unwrap().vertices.len(), 0);
    assert_eq!(Mesh::new(b"").unwrap().vertices.len(), 0);
}

#[test]
fn faces_keep_their_order_and_share_nothing() {
    let text = "v 1 1 1\nv 2 2 2\nvt 0 0\nvn 0 0 1\nf 2/1/1 1/1/1 2/1/1\nf 1/1/1 1/1/1 2/1/1\n";
    let mesh = Mesh::new(text.as_bytes()).unwrap();
    let xs: Vec<&[u8]> = mesh.vertices.iter().map(|v| v.vertices.x.as_bytes()).collect();
    assert_eq!(xs, vec![&b"2"[..], b"1", b"2", b"1", b"1", b"2"]);
}

#[test]
fn each_corner_reads_its_own_pools() {
    let text = "v 1 0 0\nv 2 0 0\nvt 0.1 0\nvt 0.2 0\nvt 0.3 0\nvn 0 0 7\nvn 0 0 8\n\
                f 2/3/1 1/2/2 1/1/2\n";
    let mesh = Mesh::new(text.as_bytes()).unwrap();
    assert_eq!(
        mesh.vertices,
        vec![
            Vertex::new(vec3("2", "0", "0"), vec2("0.3", "0"), vec3("0", "0", "7")),
            Vertex::new(vec3("1", "0", "0"), vec2("0.2", "0"), vec3("0", "0", "8")),
            Vertex::new(vec3("1", "0", "0"), vec2("0.1", "0"), vec3("0", "0", "8")),
        ]
    );
}

#[test]
fn pools_follow_the_order_of_the_lines() {
    let text = "vn 0 0 1\nv 3 3 3\nvt 1 1\nv 1 1 1\nvn 1 0 0\nvt 0 0\nv 2 2 2\n";
    let data = parse(text.as_bytes()).unwrap();
    assert_eq!(data.positions, vec![vec3("3", "3", "3"), vec3("1", "1", "1"), vec3("2", "2", "2")]);
    assert_eq!(data.uvs, vec![vec2("1", "1"), vec2("0", "0")]);
    assert_eq!(data.normals, vec![vec3("0", "0", "1"), vec3("1", "0", "0")]);
    assert!(data.faces.is_empty());
}

#[test]
fn canonical_text_reads_back_as_the_same_description() {
    let data = MeshData {
        positions: vec![vec3("0", "-1.5", "2e3"), vec3("1", "0", "0"), vec3(".5", "5.", "inf")],
        uvs: vec![vec2("0", "1"), vec2("0.25", "0.75")],
        normals: vec![vec3("0", "0", "1")],
        faces: vec![
            Face { first: corner(1, 1, 1), second: corner(2, 2, 1), third: corner(3, 1, 1) },
            Face {
                first: corner(3, 2, 1),
                second: corner(u64::MAX, 10, 100),
                third: corner(12345678901234567890, 1, 1),
            },
        ],
    };
    let text = write_text(&data);
    assert_eq!(
        String::from_utf8(text.clone()).unwrap(),
        "v 0 -1.5 2e3\nv 1 0 0\nv .5 5. inf\nvt 0 1\nvt 0.25 0.75\nvn 0 0 1\n\
         f 1/1/1 2/2/1 3/1/1\nf 3/2/1 18446744073709551615/10/100 12345678901234567890/1/1\n"
    );
    assert_eq!(parse(&text).unwrap(), data);
}

#[test]
fn description_read_from_a_text_survives_writing_and_reading() {
    let text = "# a comment\nvn 0 0 1\n\nv 1 2 3\r\nvt +0.5 1E0\nf  +1/1/01 1/1/1\t1/1/1\nv 4 5 6";
    let data = parse(text.as_bytes()).unwrap();
    let written = write_text(&data);
    assert_eq!(
        String::from_utf8(written.clone()).unwrap(),
        "v 1 2 3\nv 4 5 6\nvt +0.5 1E0\nvn 0 0 1\nf 1/1/1 1/1/1 1/1/1\n"
    );
    assert_eq!(parse(&written).unwrap(), data);
    assert_eq!(write_text(&parse(&written).unwrap()), written);
}

#[test]
fn empty_description_is_written_as_empty_text() {
    let data = MeshData::new();
    assert_eq!(write_text(&data), Vec::<u8>::new());
    assert_eq!(parse(b"").unwrap(), data);
}

#[test]
fn index_zero_is_out_of_range() {
    let positions = vec![vec3("0", "0", "0")];
    let uvs = vec![vec2("0", "0")];
    let normals = vec![vec3("0", "0", "1")];
    let good = corner(1, 1, 1);
    for (bad, pool) in [
        (corner(0, 1, 1), Pool::Position),
        (corner(1, 0, 1), Pool::Uv),
        (corner(1, 1, 0), Pool::Normal),
    ] {
        let faces = vec![Face { first: good, second: bad, third: good }];
        assert_eq!(
            assemble(&positions, &uvs, &normals, &faces),
            Err(AssemblyError::IndexOutOfRange { pool, index: 0 })
        );
    }
}

#[test]
fn index_past_the_pool_is_out_of_range() {
    let positions = vec![vec3("0", "0", "0"), vec3("1", "1", "1")];
    let uvs = vec![vec2("0", "0")];
    let normals = vec![vec3("0", "0", "1")];
    let good = corner(2, 1, 1);
    let faces = vec![Face { first: good, second: good, third: corner(3, 1, 1) }];
    assert_eq!(
        assemble(&positions, &uvs, &normals, &faces),
        Err(AssemblyError::IndexOutOfRange { pool: Pool::Position, index: 3 })
    );
    let faces = vec![Face { first: corner(1, 2, 1), second: good, third: good }];
    assert_eq!(
        assemble(&positions, &uvs, &normals, &faces),
        Err(AssemblyError::IndexOutOfRange { pool: Pool::Uv, index: 2 })
    );
    let faces = vec![Face { first: good, second: corner(1, 1, u64::MAX), third: good }];
    assert_eq!(
        assemble(&positions, &uvs, &normals, &faces),
        Err(AssemblyError::IndexOutOfRange { pool: Pool::Normal, index: u64::MAX })
    );
}

#[test]
fn first_fault_in_face_and_pool_order_is_reported() {
    let positions = vec![vec3("0", "0", "0")];
    let uvs = vec![vec2("0", "0")];
    let normals = vec![vec3("0", "0", "1")];
    let faces = vec![
        Face { first: corner(1, 1, 1), second: corner(1, 1, 1), third: corner(1, 5, 6) },
        Face { first: corner(9, 1, 1), second: corner(1, 1, 1), third: corner(1, 1, 1) },
    ];
    assert_eq!(
        assemble(&positions, &uvs, &normals, &faces),
        Err(AssemblyError::IndexOutOfRange { pool: Pool::Uv, index: 5 })
    );
    let faces = vec![Face { first: corner(7, 8, 9), second: corner(0, 0, 0), third: corner(1, 1, 1) }];
    assert_eq!(
        assemble(&positions, &uvs, &normals, &faces),
        Err(AssemblyError::IndexOutOfRange { pool: Pool::Position, index: 7 })
    );
}

#[test]
fn empty_pools_serve_no_face() {
    let faces = vec![Face { first: corner(1, 1, 1), second: corner(1, 1, 1), third: corner(1, 1, 1) }];
    assert_eq!(
        assemble(&[], &[], &[], &faces),
        Err(AssemblyError::IndexOutOfRange { pool: Pool::Position, index: 1 })
    );
    assert_eq!(assemble(&[], &[], &[], &[]).unwrap().vertices.len(), 0);
}

#[test]
fn face_that_names_an_undeclared_entry_fails_the_load() {
    let text = "v 0 0 0\nvt 0 0\nvn 0 0 1\nf 1/1/1 1/1/1 2/1/1\n";
    assert_eq!(
        Mesh::new(text.as_bytes()),
        Err(MeshError::Assembly(AssemblyError::IndexOutOfRange { pool: Pool::Position, index: 2 }))
    );
    let forward = "f 1/1/1 1/1/1 1/1/1\nv 0 0 0\nvt 0 0\nvn 0 0 1\n";
    assert_eq!(Mesh::new(forward.as_bytes()).unwrap().vertices.len(), 3);
}

#[test]
fn malformed_number_is_reported_with_its_line() {
    assert_eq!(parse(b"v 0 0 0\nv 1 x 0\nv 0 1 0\n"), Err(malformed(2, "v 1 x 0")));
    assert_eq!(parse(b"vt 0.5 1,5"), Err(malformed(1, "vt 0.5 1,5")));
    assert_eq!(parse(b"\n\nvn 0 0 1e"), Err(malformed(3, "vn 0 0 1e")));
    assert_eq!(
        Mesh::new(b"v 0 0 zero\n"),
        Err(MeshError::Parse(malformed(1, "v 0 0 zero")))
    );
}

#[test]
fn wrong_argument_count_is_malformed() {
    assert_eq!(parse(b"v 0 0"), Err(malformed(1, "v 0 0")));
    assert_eq!(parse(b"v 0 0 0 1"), Err(malformed(1, "v 0 0 0 1")));
    assert_eq!(parse(b"v"), Err(malformed(1, "v")));
    assert_eq!(parse(b"vt 0"), Err(malformed(1, "vt 0")));
    assert_eq!(parse(b"vt 0 0 0"), Err(malformed(1, "vt 0 0 0")));
    assert_eq!(parse(b"vn 0 0"), Err(malformed(1, "vn 0 0")));
    assert_eq!(parse(b"vn 0 0 1 0"), Err(malformed(1, "vn 0 0 1 0")));
    assert_eq!(parse(b"f 1/1/1 1/1/1"), Err(malformed(1, "f 1/1/1 1/1/1")));
    assert_eq!(
        parse(b"f 1/1/1 1/1/1 1/1/1 1/1/1"),
        Err(malformed(1, "f 1/1/1 1/1/1 1/1/1 1/1/1"))
    );
    assert_eq!(parse(b"f"), Err(malformed(1, "f")));
}

#[test]
fn face_component_that_is_no_index_is_malformed() {
    for line in [
        "f 1/1/1 1/1/1 a/1/1",
        "f 1//1 1/1/1 1/1/1",
        "f 1/1 1/1/1 1/1/1",
        "f 1 2 3",
        "f 1/1/1/1 1/1/1 1/1/1",
        "f 1/1/1 1/1/ 1/1/1",
        "f /1/1 1/1/1 1/1/1",
        "f 1/1/1 1/-1/1 1/1/1",
        "f 1/1/1 1/1/1 1/1/1.0",
        "f 1/1/1 1/1/1 1/1/18446744073709551616",
        "f 1/1/1 1/1/1 1/+/1",
    ] {
        assert_eq!(parse(line.as_bytes()), Err(malformed(1, line)), "{}", line);
    }
}

#[test]
fn index_zero_in_a_text_is_malformed() {
    assert_eq!(parse(b"v 0 0 0\nf 0/1/1 1/1/1 1/1/1"), Err(malformed(2, "f 0/1/1 1/1/1 1/1/1")));
    assert_eq!(parse(b"f 1/1/1 1/00/1 1/1/1"), Err(malformed(1, "f 1/1/1 1/00/1 1/1/1")));
}

#[test]
fn first_malformed_line_wins_and_nothing_is_returned() {
    let text = "v 0 0 0\nvt 0\nv bad\n";
    assert_eq!(parse(text.as_bytes()), Err(malformed(2, "vt 0")));
}

#[test]
fn raw_text_keeps_the_line_as_written() {
    assert_eq!(parse(b"  v   1 2\t\n"), Err(malformed(1, "  v   1 2\t")));
    assert_eq!(parse(b"v 1 2 3\r\nv 1 2\r\nv 1 2 3\r\n"), Err(malformed(2, "v 1 2")));
    assert_eq!(parse(b"v 1 2\r\r\n"), Err(malformed(1, "v 1 2\r")));
    assert_eq!(parse(b"v 1 2\r"), Err(malformed(1, "v 1 2\r")));
    assert_eq!(parse(b"v 1 2 3\nv 1 2\r"), Err(malformed(2, "v 1 2\r")));
    assert_eq!(parse(b"v \xff 1 2"), Err(ParseError::MalformedLine {
        line_number: 1,
        raw_text: b"v \xff 1 2".to_vec(),
    }));
}

#[test]
fn other_keywords_and_blank_lines_are_passed_over() {
    let text = "# comment with v 1 2\n\n   \t \r\nmtllib scene.mtl\no cube\nvp 0.1 0.2\nV 1 2 3\n\
                vv 1\ns off\nusemtl \u{e9}t\u{e9}\nvt1 0 0\n\x0b\x0c\n#f 1/1/1\n";
    let data = parse(text.as_bytes()).unwrap();
    assert_eq!(data, MeshData::new());
}

#[test]
fn line_endings_of_two_bytes_are_read() {
    let text = "v 0 0 0\r\nvt 0 0\r\nvn 0 0 1\r\nf 1/1/1 1/1/1 1/1/1\r\n";
    let data = parse(text.as_bytes()).unwrap();
    assert_eq!(data.positions, vec![vec3("0", "0", "0")]);
    assert_eq!(data.faces.len(), 1);
}

#[test]
fn all_forms_of_reals_are_taken_as_written() {
    let data = parse(b"v -1.5e-3 +.5 INF\nvt 1. NaN\n").unwrap();
    assert_eq!(data.positions, vec![vec3("-1.5e-3", "+.5", "INF")]);
    assert_eq!(data.uvs, vec![vec2("1.", "NaN")]);
}

#[test]
fn records_are_read_line_by_line() {
    assert_eq!(parse_record(b"v 1 2 3"), Some(Record::Position(vec3("1", "2", "3"))));
    assert_eq!(parse_record(b"vt 1 2"), Some(Record::Uv(vec2("1", "2"))));
    assert_eq!(parse_record(b"\tvn 1 2 3 "), Some(Record::Normal(vec3("1", "2", "3"))));
    assert_eq!(
        parse_record(b"f 1/2/3 4/5/6 7/8/9"),
        Some(Record::Face(Face {
            first: corner(1, 2, 3),
            second: corner(4, 5, 6),
            third: corner(7, 8, 9)
        }))
    );
    assert_eq!(parse_record(b""), Some(Record::Other));
    assert_eq!(parse_record(b"  "), Some(Record::Other));
    assert_eq!(parse_record(b"# v 1"), Some(Record::Other));
    assert_eq!(parse_record(b"fv 1 2 3"), Some(Record::Other));
    assert_eq!(parse_record(b"v 1 2"), None);
    assert_eq!(parse_record(b"f 1/2/3 4/5/6 7/8/x"), None);
}

#[test]
fn keywords_are_spelled_exactly() {
    assert_eq!(parse_keyword(b"v"), Keyword::Position);
    assert_eq!(parse_keyword(b"vt"), Keyword::Uv);
    assert_eq!(parse_keyword(b"vn"), Keyword::Normal);
    assert_eq!(parse_keyword(b"f"), Keyword::Face);
    for other in ["", "V", "F", "vt ", "vp", "fn", "vnn", "#", "vf", "tv", "nv"] {
        assert_eq!(parse_keyword(other.as_bytes()), Keyword::Other, "{:?}", other);
    }
}

#[test]
fn indices_are_decimal_and_count_from_one() {
    assert_eq!(parse_index(b"1"), Some(1));
    assert_eq!(parse_index(b"42"), Some(42));
    assert_eq!(parse_index(b"+5"), Some(5));
    assert_eq!(parse_index(b"007"), Some(7));
    assert_eq!(parse_index(b"18446744073709551615"), Some(u64::MAX));
    assert_eq!(parse_index(b"000018446744073709551615"), Some(u64::MAX));
    assert_eq!(parse_index(b"18446744073709551616"), None);
    assert_eq!(parse_index(b"99999999999999999999999"), None);
    assert_eq!(parse_index(b"0"), None);
    assert_eq!(parse_index(b"+0"), None);
    assert_eq!(parse_index(b"000"), None);
    assert_eq!(parse_index(b""), None);
    assert_eq!(parse_index(b"+"), None);
    assert_eq!(parse_index(b"-1"), None);
    assert_eq!(parse_index(b"++1"), None);
    assert_eq!(parse_index(b"1+"), None);
    assert_eq!(parse_index(b"1.0"), None);
    assert_eq!(parse_index(b"1e3"), None);
    assert_eq!(parse_index(b" 1"), None);
    assert_eq!(parse_index(b"12a"), None);
    assert_eq!(parse_index(b"184467440737095516150x"), None);
}

#[test]
fn corners_have_three_indices_between_two_slashes() {
    assert_eq!(parse_triple(b"1/2/3"), Some(corner(1, 2, 3)));
    assert_eq!(parse_triple(b"10/200/3000"), Some(corner(10, 200, 3000)));
    assert_eq!(parse_triple(b"+1/02/3"), Some(corner(1, 2, 3)));
    for bad in ["", "1", "1/2", "1//3", "/2/3", "1/2/", "//", "1/2/3/4", "1/2/3/", "0/1/1", "1/0/1", "1/1/0", "a/b/c", "1 /2/3"] {
        assert_eq!(parse_triple(bad.as_bytes()), None, "{:?}", bad);
    }
}

#[test]
fn lines_are_cut_at_white_space() {
    assert_eq!(words("v 1 2 3"), vec!["v", "1", "2", "3"]);
    assert_eq!(words("  v\t1  2\r"), vec!["v", "1", "2"]);
    assert_eq!(words("a\x0bb\x0cc\nd"), vec!["a", "b", "c", "d"]);
    assert_eq!(words(""), Vec::<String>::new());
    assert_eq!(words(" \t "), Vec::<String>::new());
    assert_eq!(words("one"), vec!["one"]);
    assert_eq!(tokenize(b" ab  c"), vec![Span { start: 1, end: 3 }, Span { start: 5, end: 6 }]);
}

#[test]
fn white_space_is_the_blank_and_five_controls() {
    for b in 0u8..=255 {
        let expected = matches!(b, b' ' | b'\t' | b'\n' | 0x0b | 0x0c | b'\r');
        assert_eq!(byte_is_space(b), expected, "{}", b);
    }
}

#[test]
fn line_and_word_ends_are_found() {
    let text = b"ab cd\nef\n\ngh";
    assert_eq!(line_end(text, 0), 5);
    assert_eq!(line_end(text, 3), 5);
    assert_eq!(line_end(text, 5), 5);
    assert_eq!(line_end(text, 6), 8);
    assert_eq!(line_end(text, 9), 9);
    assert_eq!(line_end(text, 10), 12);
    assert_eq!(line_end(text, 12), 12);
    assert_eq!(line_end(text, 13), 13);
    assert_eq!(line_end(b"", 0), 0);
    assert_eq!(word_end(text, 0), 2);
    assert_eq!(word_end(text, 2), 2);
    assert_eq!(word_end(text, 3), 5);
    assert_eq!(word_end(text, 10), 12);
    assert_eq!(word_end(text, 12), 12);
    assert_eq!(word_end(text, 40), 40);
}

#[test]
fn description_grows_by_records() {
    let mut data = MeshData::new();
    data.add(Record::Other);
    assert_eq!(data, MeshData::new());
    data.add(Record::Uv(vec2("0", "1")));
    data.add(Record::Position(vec3("1", "2", "3")));
    data.add(Record::Normal(vec3("0", "1", "0")));
    data.add(Record::Position(vec3("4", "5", "6")));
    let face = Face { first: corner(1, 1, 1), second: corner(2, 1, 1), third: corner(1, 1, 1) };
    data.add(Record::Face(face));
    assert_eq!(
        data,
        MeshData {
            positions: vec![vec3("1", "2", "3"), vec3("4", "5", "6")],
            uvs: vec![vec2("0", "1")],
            normals: vec![vec3("0", "1", "0")],
            faces: vec![face],
        }
    );
}

#[test]
fn buffer_sizes_follow_the_vertex_count() {
    let mesh = Mesh::new(TRIANGLE.as_bytes()).unwrap();
    assert_eq!(mesh.buffer_sizes(), Some(BufferSizes { positions: 36, uvs: 24, normals: 36 }));
    assert_eq!(POSITION_BYTES, 12);
    assert_eq!(UV_BYTES, 8);
    assert_eq!(NORMAL_BYTES, 12);
    let empty = Mesh { vertices: Vec::new() };
    assert_eq!(empty.buffer_sizes(), Some(BufferSizes { positions: 0, uvs: 0, normals: 0 }));
}

#[test]
fn builder_starts_with_the_default_texture() {
    let mesh = Mesh::new(TRIANGLE.as_bytes()).unwrap();
    let builder = ModelBuilder::new(mesh, 1, 2, 3, 4);
    assert_eq!(builder.vao, 1);
    assert_eq!(builder.vertex_buffer, 2);
    assert_eq!(builder.uv_buffer, 3);
    assert_eq!(builder.normal_buffer, 4);
    assert_eq!(builder.texture_id, DEFAULT_TEXTURE_ID);
    assert_eq!(builder.texture_id, 1);
    assert_eq!(builder.mesh, Mesh::new(TRIANGLE.as_bytes()).unwrap());
}

#[test]
fn builder_sets_texture_and_finalizes() {
    let mesh = Mesh::new(TRIANGLE.as_bytes()).unwrap();
    let texture = Texture { texture_id: 77, width: 0, height: 0 };
    let model = ModelBuilder::new(mesh, 10, 20, 30, 40).set_texture(texture).finalize();
    assert_eq!(
        model,
        Model {
            mesh: Mesh::new(TRIANGLE.as_bytes()).unwrap(),
            vao: 10,
            vertex_buffer: 20,
            uv_buffer: 30,
            normal_buffer: 40,
            texture_id: 77,
        }
    );
}
