use ed25519_dalek::{Signature, SigningKey, Verifier};
use ramseynet::client::{signing_payload, submit_request};
use ramseynet::identity::{key_info_for, signature_hex, KeyError, KeyFile};
use ramseynet::rgxf::RgxfJson;
use ramseynet::types::HexError;

const SECRET: [u8; 32] = [
    0x9d, 0x61, 0xb1, 0x9d, 0xef, 0xfd, 0x5a, 0x60, 0xba, 0x84, 0x4a, 0xf4, 0x92, 0xec, 0x2c, 0xc4,
    0x44, 0x49, 0xc5, 0x69, 0x7b, 0x32, 0x69, 0x19, 0x70, 0x3b, 0xac, 0x03, 0x1c, 0xae, 0x7f, 0x60,
];

#[test]
fn key_file_for_secret() {
    let f = KeyFile::for_secret(&SECRET, Some("test-key".to_string()));
    let public = SigningKey::from_bytes(&SECRET).verifying_key();
    assert_eq!(f.public_key, hex::encode(public.as_bytes()));
    // RFC 8032 test vector 1
    assert_eq!(f.public_key, "d75a980182b10ab7d54bfed3c964073a0ee172f3daa62325af021a68f707511a");
    assert_eq!(f.secret_key, hex::encode(SECRET));
    assert_eq!(f.key_id.len(), 16);
    assert_eq!(f.display_name.as_deref(), Some("test-key"));
    let info = f.info();
    assert_eq!(info.key_id, f.key_id);
    assert_eq!(info.public_key_hex, f.public_key);
    assert_eq!(f.secret_bytes().unwrap(), SECRET);
    let direct = key_info_for(&SECRET, None);
    assert_eq!(direct.key_id, f.key_id);
    assert_eq!(direct.display_name, None);
}

#[test]
fn key_file_secret_errors() {
    let mut f = KeyFile::for_secret(&SECRET, None);
    f.secret_key = "abcd".to_string();
    assert_eq!(f.secret_bytes(), Err(KeyError::WrongLength(2)));
    f.secret_key = "zz".to_string();
    assert_eq!(
        f.secret_bytes(),
        Err(KeyError::InvalidHex(HexError::InvalidHexCharacter { c: 'z', index: 0 }))
    );
    f.secret_key = "abc".to_string();
    assert_eq!(f.secret_bytes(), Err(KeyError::InvalidHex(HexError::OddLength)));
}

#[test]
fn signature_verifies() {
    // RFC 8032 test vector 1: empty message
    let sig = signature_hex(&SECRET, b"");
    assert_eq!(
        sig,
        "e5564300c360ac729086e2cc806e828a84877f1eb8e5d974d873e065224901555fb8821590a33bacc61e39701cf9b46bd25bf5f0595bbe24655141438e7a100b"
    );
    let sig = signature_hex(&SECRET, b"payload");
    let bytes: [u8; 64] = hex::decode(&sig).unwrap().try_into().unwrap();
    let public = SigningKey::from_bytes(&SECRET).verifying_key();
    assert!(public.verify(b"payload", &Signature::from_bytes(&bytes)).is_ok());
}

#[test]
fn submit_request_is_signed_over_canonical_payload() {
    let graph = RgxfJson { n: 4, encoding: "utri_b64_v1".to_string(), bits_b64: "hA==".to_string() };
    let req = submit_request(
        graph.clone(),
        5,
        3,
        4,
        &Some("0123456789abcdef".to_string()),
        &Some(SECRET),
        &Some("{\"worker\":\"w1\"}".to_string()),
    );
    assert_eq!((req.k, req.ell, req.n), (3, 5, 4));
    assert_eq!(req.key_id.as_deref(), Some("0123456789abcdef"));
    assert_eq!(req.metadata.as_deref(), Some("{\"worker\":\"w1\"}"));
    assert_eq!(req.graph.bits_b64, "hA==");
    let payload = signing_payload("hA==", 5, 3, 4);
    assert_eq!(payload, r#"{"bits_b64":"hA==","encoding":"utri_b64_v1","k":3,"ell":5,"n":4}"#);
    let sig_bytes: [u8; 64] = hex::decode(req.signature.unwrap()).unwrap().try_into().unwrap();
    let public = SigningKey::from_bytes(&SECRET).verifying_key();
    assert!(public.verify(payload.as_bytes(), &Signature::from_bytes(&sig_bytes)).is_ok());

    let unsigned = submit_request(graph, 3, 5, 4, &None, &None, &None);
    assert!(unsigned.signature.is_none());
    assert!(unsigned.key_id.is_none());
}

#[test]
fn keygen_roundtrip() {
    let secret = SigningKey::generate(&mut rand::rngs::OsRng).to_bytes();
    let file = KeyFile::for_secret(&secret, Some("test-key".to_string()));
    let info = file.info();
    assert_eq!(info.key_id.len(), 16);
    assert_eq!(info.public_key_hex.len(), 64);
    assert_eq!(info.display_name.as_deref(), Some("test-key"));

    // store the key file as JSON text and read it back
    let mut stored = std::collections::BTreeMap::new();
    stored.insert("key_id", Some(file.key_id.clone()));
    stored.insert("public_key", Some(file.public_key.clone()));
    stored.insert("secret_key", Some(file.secret_key.clone()));
    stored.insert("display_name", file.display_name.clone());
    let text = serde_json::to_string(&stored).unwrap();
    let mut read: std::collections::BTreeMap<String, Option<String>> = serde_json::from_str(&text).unwrap();
    let loaded_file = KeyFile {
        key_id: read.remove("key_id").unwrap().unwrap(),
        public_key: read.remove("public_key").unwrap().unwrap(),
        secret_key: read.remove("secret_key").unwrap().unwrap(),
        display_name: read.remove("display_name").unwrap(),
    };

    let loaded = loaded_file.info();
    assert_eq!(loaded.key_id, info.key_id);
    assert_eq!(loaded.public_key_hex, info.public_key_hex);
    assert_eq!(loaded.display_name.as_deref(), Some("test-key"));

    let loaded_secret = loaded_file.secret_bytes().unwrap();
    assert_eq!(loaded_secret, secret);
    let pub_hex = hex::encode(SigningKey::from_bytes(&loaded_secret).verifying_key().as_bytes());
    assert_eq!(pub_hex, info.public_key_hex);
}
