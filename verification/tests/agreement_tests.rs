use gfx_assets::mesh_text::{parse, parse_index, ParseError};
use gfx_assets::scalar::is_real;
use gfx_assets::text::tokenize;

fn for_each_string(alphabet: &[u8], max_len: usize, visit: &mut dyn FnMut(&[u8])) {
    let mut digits: Vec<usize> = Vec::new();
    loop {
        let bytes: Vec<u8> = digits.iter().map(|&d| alphabet[d]).collect();
        visit(&bytes);
        let mut i = 0;
        loop {
            if i == digits.len() {
                if digits.len() == max_len {
                    return;
                }
                digits.push(0);
                break;
            }
            digits[i] += 1;
            if digits[i] < alphabet.len() {
                break;
            }
            digits[i] = 0;
            i += 1;
        }
    }
}

#[test]
fn reals_agree_with_the_standard_library_on_short_strings() {
    let alphabet = b"07+-.eEinfaN ";
    let mut seen = 0usize;
    let mut accepted = 0usize;
    for_each_string(alphabet, 5, &mut |bytes| {
        let text = std::str::from_utf8(bytes).unwrap();
        assert_eq!(is_real(bytes), text.parse::<f32>().is_ok(), "{:?}", text);
        seen += 1;
        if is_real(bytes) {
            accepted += 1;
        }
    });
    assert_eq!(seen, 1 + 13 + 13 * 13 + 13 * 13 * 13 + 13 * 13 * 13 * 13 + 13 * 13 * 13 * 13 * 13);
    assert!(accepted > 100);
}

#[test]
fn reals_agree_with_the_standard_library_on_the_long_word() {
    for prefix in ["", "+", "-", "++", "."] {
        for word in ["infinity", "INFINITY", "InFiNiTy", "infinit", "infinityy", "infinite", "nfinity"] {
            for suffix in ["", "0", "e1", " "] {
                let text = format!("{}{}{}", prefix, word, suffix);
                assert_eq!(is_real(text.as_bytes()), text.parse::<f32>().is_ok(), "{:?}", text);
            }
        }
    }
}

#[test]
fn reals_agree_with_the_standard_library_on_long_numbers() {
    let digits = "1234567890".repeat(40);
    for text in [
        digits.clone(),
        format!("-{}.{}", digits, digits),
        format!(".{}e-{}", digits, digits),
        format!("{}e+{}", digits, digits),
        format!("{}e", digits),
        format!("{}.{}.{}", digits, digits, digits),
        format!("{}x", digits),
    ] {
        assert_eq!(is_real(text.as_bytes()), text.parse::<f32>().is_ok(), "{:?}", text);
    }
}

#[test]
fn indices_agree_with_the_standard_library_on_short_strings() {
    let alphabet = b"019+-/ ";
    for_each_string(alphabet, 6, &mut |bytes| {
        let text = std::str::from_utf8(bytes).unwrap();
        let expected = text.parse::<u64>().ok().filter(|value| *value >= 1);
        assert_eq!(parse_index(bytes), expected, "{:?}", text);
    });
}

#[test]
fn indices_agree_with_the_standard_library_near_the_largest_number() {
    for text in [
        "18446744073709551614",
        "18446744073709551615",
        "18446744073709551616",
        "18446744073709551620",
        "28446744073709551615",
        "184467440737095516150",
        "+18446744073709551615",
        "0000000000000000000018446744073709551615",
        "99999999999999999999",
        "10000000000000000000",
    ] {
        let expected = text.parse::<u64>().ok().filter(|value| *value >= 1);
        assert_eq!(parse_index(text.as_bytes()), expected, "{:?}", text);
    }
}

#[test]
fn tokens_agree_with_the_standard_library_on_short_lines() {
    let alphabet = b"ab \t\r\x0b\x0c\n";
    for_each_string(alphabet, 6, &mut |bytes| {
        let text = std::str::from_utf8(bytes).unwrap();
        let expected: Vec<&str> = text.split_whitespace().collect();
        let found: Vec<&str> =
            tokenize(bytes).iter().map(|span| &text[span.start..span.end]).collect();
        assert_eq!(found, expected, "{:?}", text);
    });
}

fn is_number(token: &str) -> bool {
    token.parse::<f32>().is_ok()
}

fn is_corner(token: &str) -> bool {
    let parts: Vec<&str> = token.split('/').collect();
    parts.len() == 3 && parts.iter().all(|part| part.parse::<u64>().map_or(false, |v| v >= 1))
}

/// What the standard library's line and token iterators make of a text: the
/// number of positions, texture coordinates, normals and faces, or the first
/// malformed line.
fn by_the_standard_library(text: &str) -> Result<[usize; 4], (usize, String)> {
    let mut counts = [0usize; 4];
    for (i, line) in text.lines().enumerate() {
        let tokens: Vec<&str> = line.split_whitespace().collect();
        if tokens.is_empty() {
            continue;
        }
        let (kind, well_formed) = match tokens[0] {
            "v" => (0, tokens.len() == 4 && tokens[1..].iter().all(|t| is_number(t))),
            "vt" => (1, tokens.len() == 3 && tokens[1..].iter().all(|t| is_number(t))),
            "vn" => (2, tokens.len() == 4 && tokens[1..].iter().all(|t| is_number(t))),
            "f" => (3, tokens.len() == 4 && tokens[1..].iter().all(|t| is_corner(t))),
            _ => continue,
        };
        if !well_formed {
            return Err((i + 1, line.to_string()));
        }
        counts[kind] += 1;
    }
    Ok(counts)
}

fn by_the_library(text: &str) -> Result<[usize; 4], (usize, String)> {
    match parse(text.as_bytes()) {
        Ok(data) => {
            Ok([data.positions.len(), data.uvs.len(), data.normals.len(), data.faces.len()])
        }
        Err(ParseError::MalformedLine { line_number, raw_text }) => {
            Err((line_number, String::from_utf8(raw_text).unwrap()))
        }
    }
}

/// Compares the two readings on every text made of `before` and a string
/// over `alphabet` of at most `max_len` bytes. Returns how many texts were
/// refused and how many records the others declared.
fn texts_agree(before: &str, alphabet: &[u8], max_len: usize) -> (usize, usize) {
    let mut refused = 0usize;
    let mut declared = 0usize;
    for_each_string(alphabet, max_len, &mut |bytes| {
        let text = format!("{}{}", before, std::str::from_utf8(bytes).unwrap());
        let expected = by_the_standard_library(&text);
        assert_eq!(by_the_library(&text), expected, "{:?}", text);
        match expected {
            Ok(counts) => declared += counts.iter().sum::<usize>(),
            Err(_) => refused += 1,
        }
    });
    (refused, declared)
}

#[test]
fn texts_of_positions_agree_with_the_standard_library() {
    let (refused, declared) = texts_agree("", b"v1 \r\n", 8);
    assert!(refused > 0);
    assert!(declared > 0);
}

#[test]
fn texts_of_texture_coordinates_and_normals_agree_with_the_standard_library() {
    let (refused, declared) = texts_agree("", b"vtn1. \n", 7);
    assert!(refused > 0);
    assert!(declared > 0);
}

#[test]
fn texts_of_faces_agree_with_the_standard_library() {
    let (refused, declared) = texts_agree("f 1/1/1 1/1/1 ", b"f1/ \n", 7);
    assert!(refused > 0);
    assert!(declared > 0);
    let (refused, _) = texts_agree("f 1/1/1 ", b"1/+0 ", 7);
    assert!(refused > 0);
}

#[test]
fn mixed_texts_agree_with_the_standard_library() {
    let (refused, _) = texts_agree("", b"vtnf1 ./\r\n", 5);
    assert!(refused > 0);
    let (refused, declared) = texts_agree("v 1 1 1\r\nvt 1 1\nf 1/1/1 2/2/2 ", b"vf1 /\r\n", 6);
    assert!(refused > 0);
    assert!(declared > 0);
}
