use ramseynet::client::{
    canonical_params, cids_url, graphs_url, keys_url, normalize_base_url, signing_payload,
    submit_url, threshold_url,
};

#[test]
fn base_url_trailing_slashes_removed() {
    assert_eq!(normalize_base_url("http://h:1///"), "http://h:1");
    assert_eq!(normalize_base_url("http://h:1"), "http://h:1");
    assert_eq!(normalize_base_url("/"), "");
}

#[test]
fn urls() {
    assert_eq!(
        threshold_url("http://h", 4, 5, 24),
        "http://h/api/leaderboards/4/5/24/threshold"
    );
    assert_eq!(
        graphs_url("http://h", 4, 5, 24, 100, 20),
        "http://h/api/leaderboards/4/5/24/graphs?limit=100&offset=20"
    );
    assert_eq!(cids_url("http://h", 3, 3, 5, None), "http://h/api/leaderboards/3/3/5/cids");
    assert_eq!(
        cids_url("http://h", 3, 3, 5, Some("2024-01-02T03:04:05+00:00")),
        "http://h/api/leaderboards/3/3/5/cids?since=2024-01-02T03%3A04%3A05%2B00%3A00"
    );
    assert_eq!(submit_url("http://h"), "http://h/api/submit");
}

#[test]
fn params_and_payload() {
    assert_eq!(canonical_params(5, 3), (3, 5));
    assert_eq!(canonical_params(3, 5), (3, 5));
    assert_eq!(
        signing_payload("QUJD", 5, 4, 25),
        r#"{"bits_b64":"QUJD","encoding":"utri_b64_v1","k":4,"ell":5,"n":25}"#
    );
}

#[test]
fn keys_url_trims_trailing_slashes() {
    assert_eq!(keys_url("http://host:3001//"), "http://host:3001/api/keys");
    assert_eq!(keys_url("http://host"), "http://host/api/keys");
}
