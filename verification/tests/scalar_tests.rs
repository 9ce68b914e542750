use gfx_assets::scalar::{is_real, Scalar};
use gfx_assets::vertex::{Vec2, Vec3, Vertex};

#[test]
fn plain_numbers_are_reals() {
    for literal in ["0", "1", "42", "007", "1.5", "0.0", "1.", ".5", "-1", "+1", "-0.25", "+.5"] {
        assert!(is_real(literal.as_bytes()), "{}", literal);
    }
}

#[test]
fn exponents_are_reals() {
    for literal in ["1e5", "1E5", "1e+5", "1e-5", "1.5e10", ".5e0", "5.e3", "-2.5E-3", "0e0"] {
        assert!(is_real(literal.as_bytes()), "{}", literal);
    }
}

#[test]
fn words_for_values_that_are_no_numbers_are_reals() {
    for literal in ["inf", "INF", "Inf", "+inf", "-inf", "infinity", "Infinity", "-INFINITY", "nan", "NaN", "+nan", "-NAN"] {
        assert!(is_real(literal.as_bytes()), "{}", literal);
    }
}

#[test]
fn malformed_tokens_are_no_reals() {
    for literal in [
        "", "+", "-", ".", "+.", "e5", ".e5", "1e", "1e+", "1e-", "1e5.0", "1.2.3", "--1", "+-1",
        "1-", "1+1", "0x10", "1f", "1,5", "abc", "in", "infi", "infinit", "infinityy", "na",
        "nann", "1 ", " 1", "1e 5", "1_000", "1/2", "\u{661}",
    ] {
        assert!(!is_real(literal.as_bytes()), "{:?}", literal);
    }
}

#[test]
fn every_accepted_literal_is_read_by_the_standard_library() {
    for literal in ["1", "1.", ".5", "-1e-5", "+INF", "nan", "infinity", "3.14159", "1E+2"] {
        assert!(is_real(literal.as_bytes()));
        let text = std::str::from_utf8(Scalar::parse(literal.as_bytes()).unwrap().as_bytes())
            .unwrap()
            .to_string();
        assert!(text.parse::<f32>().is_ok(), "{}", literal);
    }
}

#[test]
fn scalar_keeps_its_literal() {
    let scalar = Scalar::parse(b"-12.50e3").unwrap();
    assert_eq!(scalar.as_bytes(), b"-12.50e3");
    assert_eq!(scalar.clone(), scalar);
    assert_eq!(Scalar::parse(b"1.0"), Scalar::parse(b"1.0"));
    assert_ne!(Scalar::parse(b"1.0"), Scalar::parse(b"1.00"));
    assert_eq!(Scalar::parse(b"one"), None);
    assert_eq!(Scalar::parse(b""), None);
}

#[test]
fn vectors_take_literals_only() {
    let v = Vec3::parse(b"1", b"2.5", b"-3e1").unwrap();
    assert_eq!(v.x.as_bytes(), b"1");
    assert_eq!(v.y.as_bytes(), b"2.5");
    assert_eq!(v.z.as_bytes(), b"-3e1");
    assert_eq!(Vec3::parse(b"x", b"2", b"3"), None);
    assert_eq!(Vec3::parse(b"1", b"", b"3"), None);
    assert_eq!(Vec3::parse(b"1", b"2", b"3.3.3"), None);
    let t = Vec2::parse(b"0.5", b"1").unwrap();
    assert_eq!(t.x.as_bytes(), b"0.5");
    assert_eq!(t.y.as_bytes(), b"1");
    assert_eq!(Vec2::parse(b"0.5", b"one"), None);
    assert_eq!(Vec2::parse(b"a", b"1"), None);
}

#[test]
fn vectors_are_made_of_their_components() {
    let x = Scalar::parse(b"1").unwrap();
    let y = Scalar::parse(b"2").unwrap();
    let z = Scalar::parse(b"3").unwrap();
    assert_eq!(Vec3::new(x.clone(), y.clone(), z), Vec3::parse(b"1", b"2", b"3").unwrap());
    assert_eq!(Vec2::new(x, y), Vec2::parse(b"1", b"2").unwrap());
}

#[test]
fn vertex_holds_what_it_was_given() {
    let position = Vec3::parse(b"1", b"2", b"3").unwrap();
    let uv = Vec2::parse(b"0.5", b"0.25").unwrap();
    let normal = Vec3::parse(b"0", b"0", b"1").unwrap();
    let vertex = Vertex::new(position.clone(), uv.clone(), normal.clone());
    assert_eq!(vertex.vertices, position);
    assert_eq!(vertex.uv_coords, uv);
    assert_eq!(vertex.normals, normal);
    assert_eq!(vertex.clone(), vertex);
}
