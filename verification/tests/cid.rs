use ed25519_dalek::SigningKey;
use rand::rngs::OsRng;
use sha2::{Digest, Sha256};
use ramseynet::cid::{compute_cid, to_canonical_bytes};
use ramseynet::graph::AdjacencyMatrix;
use ramseynet::identity::compute_key_id;

#[test]
fn cid_deterministic() {
    let mut g = AdjacencyMatrix::new(5);
    g.set_edge(0, 1, true);
    g.set_edge(2, 3, true);

    let cid1 = compute_cid(&g);
    let cid2 = compute_cid(&g);
    assert_eq!(cid1, cid2);
}

#[test]
fn different_graphs_different_cids() {
    let mut g1 = AdjacencyMatrix::new(5);
    g1.set_edge(0, 1, true);

    let mut g2 = AdjacencyMatrix::new(5);
    g2.set_edge(0, 2, true);

    assert_ne!(compute_cid(&g1), compute_cid(&g2));
}

#[test]
fn canonical_bytes_layout() {
    let mut g = AdjacencyMatrix::new(4);
    // upper triangle order: (0,1) (0,2) (0,3) (1,2) (1,3) (2,3)
    g.set_edge(0, 1, true);
    g.set_edge(2, 3, true);
    assert_eq!(to_canonical_bytes(&g), vec![0, 0, 0, 4, 0b1000_0100]);
    let empty = AdjacencyMatrix::new(0);
    assert_eq!(to_canonical_bytes(&empty), vec![0, 0, 0, 0]);
    let mut h = AdjacencyMatrix::new(5);
    h.set_edge(3, 4, true);
    // ten pairs: two bytes, the last pair is bit 9 (second byte, second bit)
    assert_eq!(to_canonical_bytes(&h), vec![0, 0, 0, 5, 0, 0b0100_0000]);
}

#[test]
fn cid_is_sha256_of_canonical_bytes() {
    let mut g = AdjacencyMatrix::new(6);
    g.set_edge(1, 4, true);
    let expected: [u8; 32] = Sha256::digest(to_canonical_bytes(&g)).into();
    assert_eq!(compute_cid(&g).0, expected);
}

#[test]
fn key_id_is_deterministic() {
    let signing_key = SigningKey::generate(&mut OsRng);
    let pub_key = signing_key.verifying_key();
    let id1 = compute_key_id(pub_key.as_bytes());
    let id2 = compute_key_id(pub_key.as_bytes());
    assert_eq!(id1, id2);
    assert_eq!(id1.len(), 16);
}

#[test]
fn key_id_is_hex_of_digest_prefix() {
    let key = [7u8; 32];
    let digest = Sha256::digest(key);
    assert_eq!(compute_key_id(&key), hex::encode(&digest[..8]));
}

#[test]
fn canonical_bytes_tell_graphs_apart() {
    let mut a = AdjacencyMatrix::new(6);
    a.set_edge(0, 5, true);
    let mut b = AdjacencyMatrix::new(6);
    b.set_edge(1, 5, true);
    assert_ne!(to_canonical_bytes(&a), to_canonical_bytes(&b));
    assert_ne!(to_canonical_bytes(&AdjacencyMatrix::new(2)), to_canonical_bytes(&AdjacencyMatrix::new(3)));
    let mut c = AdjacencyMatrix::new(6);
    c.set_edge(5, 0, true);
    assert_eq!(to_canonical_bytes(&a), to_canonical_bytes(&c));
}
