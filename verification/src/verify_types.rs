//! Verification results and the response that reports them.

use vstd::prelude::*;

use crate::rgxf::RgxfJson;
use crate::types::{hex_lower, verdict_text, GraphCid, Verdict};

verus! {

/// A verification request.
#[derive(Clone, Debug)]
pub struct VerifyRequest {
    pub oras_version: String,
    pub k: u32,
    pub ell: u32,
    pub graph: RgxfJson,
    /// Whether the response should carry the graph's content ID.
    pub want_cid: bool,
}

/// Internal verification result.
#[derive(Clone, Debug)]
pub struct VerifyResult {
    pub verdict: Verdict,
    pub graph_cid: GraphCid,
    pub reason: Option<String>,
    pub witness: Option<Vec<u32>>,
}

/// Verification response as reported to clients.
#[derive(Clone, Debug)]
pub struct VerifyResponse {
    pub status: String,
    pub graph_cid: Option<String>,
    pub reason: Option<String>,
    pub witness: Option<Vec<u32>>,
}

impl VerifyResponse {
    /// The response reporting `r`: its verdict's name, its content ID in hex,
    /// and its reason and witness unchanged.
    pub fn from_result(r: VerifyResult) -> (resp: VerifyResponse)
        ensures
            resp.status@ == verdict_text(r.verdict),
            resp.graph_cid is Some,
            resp.graph_cid->0@ == hex_lower(r.graph_cid.0@),
            resp.reason == r.reason,
            resp.witness == r.witness,
    {
        VerifyResponse {
            status: r.verdict.to_string(),
            graph_cid: Some(r.graph_cid.to_hex()),
            reason: r.reason,
            witness: r.witness,
        }
    }

    /// The response to a request whose verification gave `r`: as
    /// `from_result`, but without the content ID unless the request wants it.
    pub fn for_request(r: VerifyResult, want_cid: bool) -> (resp: VerifyResponse)
        ensures
            resp.status@ == verdict_text(r.verdict),
            want_cid ==> resp.graph_cid is Some && resp.graph_cid->0@ == hex_lower(r.graph_cid.0@),
            !want_cid ==> resp.graph_cid is None,
            resp.reason == r.reason,
            resp.witness == r.witness,
    {
        let mut resp = VerifyResponse::from_result(r);
        if !want_cid {
            resp.graph_cid = None;
        }
        resp
    }
}

} // verus!
