use ramseynet::known::KnownCids;
use ramseynet::types::GraphCid;

fn cid(b: u8) -> GraphCid {
    GraphCid([b; 32])
}

#[test]
fn insert_contains_len() {
    let mut k = KnownCids::new();
    assert!(k.is_empty());
    k.insert(cid(1));
    k.insert(cid(2));
    k.insert(cid(1));
    assert_eq!(k.len(), 2);
    assert!(k.contains(&cid(1)));
    assert!(k.contains(&cid(2)));
    assert!(!k.contains(&cid(3)));
    assert!(!k.is_empty());
}

#[test]
fn insert_hex_and_add_from_hex_skip_bad_input() {
    let mut k = KnownCids::default();
    k.insert_hex(&cid(0xab).to_hex());
    k.insert_hex("not hex");
    k.insert_hex("abcd");
    assert_eq!(k.len(), 1);
    let list = vec![cid(1).to_hex(), "zz".to_string(), cid(2).to_hex(), cid(1).to_hex()];
    k.add_from_hex(&list);
    assert_eq!(k.len(), 3);
    assert!(k.contains(&cid(2)));
}

#[test]
fn snapshot_trimmed_limits_size() {
    let mut k = KnownCids::new();
    for b in 0..10u8 {
        k.insert(cid(b));
    }
    let s = k.snapshot_trimmed(4);
    assert_eq!(s.len(), 4);
    let all = k.snapshot_trimmed(100);
    assert_eq!(all.len(), 10);
    for b in 0..10u8 {
        assert!(all.contains(&cid(b)));
    }
    let copy = k.clone();
    assert_eq!(copy.len(), 10);
}

#[test]
fn clear_forgets_everything() {
    let mut k = KnownCids::new();
    k.insert(cid(5));
    k.clear();
    assert!(k.is_empty());
    assert!(!k.contains(&cid(5)));
}

#[test]
fn inserts_grow_by_new_ids_only() {
    let mut k = KnownCids::new();
    k.insert(GraphCid([1; 32]));
    k.insert(GraphCid([1; 32]));
    assert_eq!(k.len(), 1);
    k.insert_hex(&hex::encode([2u8; 32]));
    k.insert_hex(&hex::encode([2u8; 32]));
    k.insert_hex("zz");
    assert_eq!(k.len(), 2);
}
