use ramseynet::verify_types::{VerifyResponse, VerifyResult};
use ramseynet::search::{LEDGER_VERSION, SEARCH_VERSION};
use ramseynet::types::{ChallengeId, GraphCid, HexError, Verdict, PROTOCOL_VERSION};

#[test]
fn challenge_id_format() {
    let id = ChallengeId::new(3, 3);
    assert_eq!(id.0, "ramsey:3:3:v1");
}

#[test]
fn challenge_id_multi_digit() {
    assert_eq!(ChallengeId::new(10, 405).0, "ramsey:10:405:v1");
    assert_eq!(ChallengeId::new(0, 4294967295).0, "ramsey:0:4294967295:v1");
}

#[test]
fn graph_cid_hex_roundtrip() {
    let cid = GraphCid([0xab; 32]);
    let hex = cid.to_hex();
    let recovered = GraphCid::from_hex(&hex).unwrap();
    assert_eq!(cid, recovered);
}

#[test]
fn graph_cid_hex_is_lowercase_and_mixed_case_parses() {
    let mut bytes = [0u8; 32];
    bytes[0] = 0x0f;
    bytes[31] = 0xA0;
    let cid = GraphCid(bytes);
    let hex = cid.to_hex();
    assert_eq!(hex.len(), 64);
    assert!(hex.starts_with("0f00"));
    assert!(hex.ends_with("a0"));
    let upper = hex.to_uppercase();
    assert_eq!(GraphCid::from_hex(&upper).unwrap(), cid);
}

#[test]
fn graph_cid_from_hex_errors() {
    assert_eq!(GraphCid::from_hex("abc"), Err(HexError::OddLength));
    assert_eq!(
        GraphCid::from_hex("zz"),
        Err(HexError::InvalidHexCharacter { c: 'z', index: 0 })
    );
    assert_eq!(
        GraphCid::from_hex("0g"),
        Err(HexError::InvalidHexCharacter { c: 'g', index: 1 })
    );
    assert_eq!(GraphCid::from_hex("abcd"), Err(HexError::InvalidStringLength));
    assert_eq!(GraphCid::from_hex(""), Err(HexError::InvalidStringLength));
}

#[test]
fn graph_cid_same() {
    let a = GraphCid([1; 32]);
    let mut other = [1u8; 32];
    assert!(a.same(&GraphCid(other)));
    other[17] = 2;
    assert!(!a.same(&GraphCid(other)));
}

#[test]
fn verdict_display() {
    assert_eq!(Verdict::Accepted.to_string(), "accepted");
    assert_eq!(Verdict::Rejected.to_string(), "rejected");
}

#[test]
fn version_exists() {
    assert!(!PROTOCOL_VERSION.is_empty());
}

#[test]
fn lib_version_exists() {
    assert!(!LEDGER_VERSION.is_empty());
    assert!(!SEARCH_VERSION.is_empty());
}

#[test]
fn verify_response_for_request() {
    let result = VerifyResult {
        verdict: Verdict::Rejected,
        graph_cid: GraphCid([0x11; 32]),
        reason: Some("clique of size 3".to_string()),
        witness: Some(vec![0, 1, 2]),
    };
    let with_cid = VerifyResponse::for_request(result.clone(), true);
    assert_eq!(with_cid.status, "rejected");
    assert_eq!(with_cid.graph_cid.as_deref(), Some("11".repeat(32).as_str()));
    assert_eq!(with_cid.witness, Some(vec![0, 1, 2]));
    let without = VerifyResponse::for_request(result, false);
    assert_eq!(without.graph_cid, None);
    assert_eq!(without.reason.as_deref(), Some("clique of size 3"));
}
