use ramseynet::graph::AdjacencyMatrix;
use ramseynet::rgxf::{b64_decode_str, b64_encode_bytes, from_json, to_json, RgxfError, RgxfJson};

fn rgxf(n: u32, encoding: &str, bits: &str) -> RgxfJson {
    RgxfJson { n, encoding: encoding.to_string(), bits_b64: bits.to_string() }
}

#[test]
fn base64_known_vectors() {
    let cases: [(&str, &str); 7] = [
        ("", ""),
        ("f", "Zg=="),
        ("fo", "Zm8="),
        ("foo", "Zm9v"),
        ("foob", "Zm9vYg=="),
        ("fooba", "Zm9vYmE="),
        ("foobar", "Zm9vYmFy"),
    ];
    for (plain, encoded) in cases {
        assert_eq!(b64_encode_bytes(plain.as_bytes()), encoded);
        assert_eq!(b64_decode_str(encoded), Some(plain.as_bytes().to_vec()));
    }
}

#[test]
fn base64_full_alphabet_roundtrip() {
    let bytes: Vec<u8> = (0..=255u8).collect();
    let text = b64_encode_bytes(&bytes);
    assert!(text.contains('+') && text.contains('/'));
    assert_eq!(b64_decode_str(&text), Some(bytes));
}

#[test]
fn base64_rejects_malformed_text() {
    assert_eq!(b64_decode_str("Zg="), None);
    assert_eq!(b64_decode_str("Zm9"), None);
    assert_eq!(b64_decode_str("Z%9v"), None);
    assert_eq!(b64_decode_str("Zg==Zm9v"), None);
    assert_eq!(b64_decode_str("Z==="), None);
    assert_eq!(b64_decode_str("é123"), None);
}

#[test]
fn to_json_layout() {
    let mut g = AdjacencyMatrix::new(4);
    // upper triangle (0,1) (0,2) (0,3) (1,2) (1,3) (2,3) = 100001 -> 0x84
    g.set_edge(0, 1, true);
    g.set_edge(2, 3, true);
    let j = to_json(&g);
    assert_eq!(j.n, 4);
    assert_eq!(j.encoding, "utri_b64_v1");
    assert_eq!(j.bits_b64, "hA==");
    let empty = to_json(&AdjacencyMatrix::new(0));
    assert_eq!(empty.bits_b64, "");
}

#[test]
fn rgxf_roundtrip() {
    let mut g = AdjacencyMatrix::new(9);
    for i in 0..9u32 {
        for j in (i + 1)..9 {
            if (i * 7 + j * 3) % 5 < 2 {
                g.set_edge(i, j, true);
            }
        }
    }
    let back = from_json(&to_json(&g)).unwrap();
    assert_eq!(back, g);
    let single = AdjacencyMatrix::new(1);
    assert_eq!(from_json(&to_json(&single)).unwrap(), single);
}

#[test]
fn from_json_reads_edges() {
    let g = from_json(&rgxf(4, "utri_b64_v1", "hA==")).unwrap();
    assert_eq!(g.n(), 4);
    assert!(g.edge(0, 1) && g.edge(1, 0));
    assert!(g.edge(2, 3) && g.edge(3, 2));
    assert!(!g.edge(0, 2) && !g.edge(1, 3) && !g.edge(0, 3) && !g.edge(1, 2));
}

#[test]
fn from_json_ignores_padding_bits() {
    let plain = from_json(&rgxf(4, "utri_b64_v1", "hA==")).unwrap();
    assert_eq!(from_json(&rgxf(4, "utri_b64_v1", "hw==")).unwrap(), plain);
    assert_eq!(from_json(&rgxf(4, "utri_b64_v1", "hP==")).unwrap(), plain);
}

#[test]
fn from_json_errors() {
    assert_eq!(from_json(&rgxf(4, "graph6", "hA==")).unwrap_err(), RgxfError::UnsupportedEncoding);
    assert_eq!(from_json(&rgxf(4, "utri_b64_v1", "h%==")).unwrap_err(), RgxfError::InvalidBase64);
    assert_eq!(
        from_json(&rgxf(5, "utri_b64_v1", "hA==")).unwrap_err(),
        RgxfError::LengthMismatch { expected: 2, actual: 1 }
    );
    assert_eq!(
        from_json(&rgxf(3, "utri_b64_v1", "")).unwrap_err(),
        RgxfError::LengthMismatch { expected: 1, actual: 0 }
    );
}
