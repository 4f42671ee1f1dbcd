//! Request building for the leaderboard server: endpoint URLs, query
//! encoding, parameter canonicalisation and the signed submission payload.

use vstd::prelude::*;

use crate::identity::{ed25519_signature, signature_hex};
use crate::rgxf::RgxfJson;
use crate::text::{decimal, push_decimal};
use crate::types::hex_lower;

verus! {

/// `s` with every trailing `c` removed.
pub open spec fn trim_end(s: Seq<char>, c: char) -> Seq<char>
    decreases s.len(),
{
    if s.len() > 0 && s.last() == c {
        trim_end(s.drop_last(), c)
    } else {
        s
    }
}

/// The server's base URL without trailing slashes.
pub fn normalize_base_url(base_url: &str) -> (s: String)
    ensures
        s@ == trim_end(base_url@, '/'),
{
    let mut j = base_url.unicode_len();
    assert(base_url@.take(j as int) =~= base_url@);
    while j > 0 && base_url.get_char(j - 1) == '/'
        invariant
            j <= base_url@.len(),
            trim_end(base_url@, '/') == trim_end(base_url@.take(j as int), '/'),
        decreases j,
    {
        assert(base_url@.take(j as int).drop_last() =~= base_url@.take(j - 1));
        j = j - 1;
    }
    let head = base_url.substring_char(0, j);
    proof {
        if j > 0 {
            assert(base_url@.take(j as int).last() == base_url@[j - 1]);
        }
        assert(head@ =~= base_url@.take(j as int));
    }
    String::from_str(head)
}

/// Canonical Ramsey parameters: the smaller of `k` and `ell` first.
pub fn canonical_params(k: u32, ell: u32) -> (r: (u32, u32))
    ensures
        r.0 == if k <= ell { k } else { ell },
        r.1 == if k <= ell { ell } else { k },
{
    if k <= ell {
        (k, ell)
    } else {
        (ell, k)
    }
}

/// The leaderboard path for `(k, ell, n)`.
pub open spec fn leaderboard_path(base: Seq<char>, k: nat, ell: nat, n: nat) -> Seq<char> {
    base + "/api/leaderboards/"@ + decimal(k) + "/"@ + decimal(ell) + "/"@ + decimal(n)
}

fn push_leaderboard_path(out: &mut String, k: u32, ell: u32, n: u32)
    ensures
        final(out)@ == leaderboard_path(old(out)@, k as nat, ell as nat, n as nat),
{
    out.append("/api/leaderboards/");
    push_decimal(out, k as u64);
    out.append("/");
    push_decimal(out, ell as u64);
    out.append("/");
    push_decimal(out, n as u64);
}

/// URL of a leaderboard's admission threshold.
pub fn threshold_url(base: &str, k: u32, ell: u32, n: u32) -> (u: String)
    ensures
        u@ == leaderboard_path(base@, k as nat, ell as nat, n as nat) + "/threshold"@,
{
    let mut u = String::from_str(base);
    push_leaderboard_path(&mut u, k, ell, n);
    u.append("/threshold");
    u
}

/// URL of a page of leaderboard graphs.
pub fn graphs_url(base: &str, k: u32, ell: u32, n: u32, limit: u32, offset: u32) -> (u: String)
    ensures
        u@ == leaderboard_path(base@, k as nat, ell as nat, n as nat) + "/graphs?limit="@ + decimal(
            limit as nat,
        ) + "&offset="@ + decimal(offset as nat),
{
    let mut u = String::from_str(base);
    push_leaderboard_path(&mut u, k, ell, n);
    u.append("/graphs?limit=");
    push_decimal(&mut u, limit as u64);
    u.append("&offset=");
    push_decimal(&mut u, offset as u64);
    u
}

/// `s` with `:` written `%3A` and `+` written `%2B`.
pub open spec fn encode_since(s: Seq<char>) -> Seq<char>
    decreases s.len(),
{
    if s.len() == 0 {
        Seq::empty()
    } else {
        encode_since(s.drop_last()) + if s.last() == ':' {
            "%3A"@
        } else if s.last() == '+' {
            "%2B"@
        } else {
            seq![s.last()]
        }
    }
}

/// URL of the leaderboard's content IDs, admitted after `since` if given.
pub fn cids_url(base: &str, k: u32, ell: u32, n: u32, since: Option<&str>) -> (u: String)
    ensures
        u@ == leaderboard_path(base@, k as nat, ell as nat, n as nat) + "/cids"@ + match since {
            Some(t) => "?since="@ + encode_since(t@),
            None => Seq::empty(),
        },
{
    let mut u = String::from_str(base);
    push_leaderboard_path(&mut u, k, ell, n);
    u.append("/cids");
    let ghost prefix = u@;
    match since {
        Some(t) => {
            u.append("?since=");
            let ghost start = u@;
            let len = t.unicode_len();
            let mut i: usize = 0;
            while i < len
                invariant
                    len == t@.len(),
                    i <= len,
                    u@ == start + encode_since(t@.take(i as int)),
                decreases len - i,
            {
                let c = t.get_char(i);
                let ghost before = u@;
                proof {
                    assert(t@.take(i + 1).drop_last() =~= t@.take(i as int));
                    assert(t@.take(i + 1).last() == c);
                }
                if c == ':' {
                    u.append("%3A");
                } else if c == '+' {
                    u.append("%2B");
                } else {
                    let piece = t.substring_char(i, i + 1);
                    assert(piece@ =~= seq![c]);
                    u.append(piece);
                }
                assert(u@ =~= start + encode_since(t@.take(i + 1)));
                i = i + 1;
            }
            assert(t@.take(len as int) =~= t@);
            assert(u@ =~= prefix + ("?since="@ + encode_since(t@)));
        },
        None => {
            assert(u@ =~= prefix + Seq::<char>::empty());
        },
    }
    u
}

/// URL for registering a public key: the base URL without trailing
/// slashes, then `/api/keys`.
pub fn keys_url(base: &str) -> (u: String)
    ensures
        u@ == trim_end(base@, '/') + "/api/keys"@,
{
    let mut u = normalize_base_url(base);
    u.append("/api/keys");
    u
}

/// URL for submitting a graph.
pub fn submit_url(base: &str) -> (u: String)
    ensures
        u@ == base@ + "/api/submit"@,
{
    let mut u = String::from_str(base);
    u.append("/api/submit");
    u
}

/// The canonical JSON payload a submission signature covers.
pub open spec fn signing_payload_text(bits_b64: Seq<char>, k: nat, ell: nat, n: nat) -> Seq<char> {
    "{\"bits_b64\":\""@ + bits_b64 + "\",\"encoding\":\"utri_b64_v1\",\"k\":"@ + decimal(k) + ",\"ell\":"@
        + decimal(ell) + ",\"n\":"@ + decimal(n) + "}"@
}

/// The payload signed for a submission of graph bits `bits_b64` under
/// Ramsey parameters `(k, ell)` (put in canonical order) on `n` vertices.
pub fn signing_payload(bits_b64: &str, k: u32, ell: u32, n: u32) -> (p: String)
    ensures
        p@ == signing_payload_text(
            bits_b64@,
            if k <= ell { k } else { ell } as nat,
            if k <= ell { ell } else { k } as nat,
            n as nat,
        ),
{
    let (ck, cl) = canonical_params(k, ell);
    let mut p = String::from_str("{\"bits_b64\":\"");
    p.append(bits_b64);
    p.append("\",\"encoding\":\"utri_b64_v1\",\"k\":");
    push_decimal(&mut p, ck as u64);
    p.append(",\"ell\":");
    push_decimal(&mut p, cl as u64);
    p.append(",\"n\":");
    push_decimal(&mut p, n as u64);
    p.append("}");
    p
}

/// A graph submission as sent to the server.
#[derive(Clone, Debug)]
pub struct SubmitRequest {
    pub k: u32,
    pub ell: u32,
    pub n: u32,
    pub graph: RgxfJson,
    pub key_id: Option<String>,
    /// Hex Ed25519 signature of the canonical payload.
    pub signature: Option<String>,
    /// JSON metadata (commit hash, worker ID and the like).
    pub metadata: Option<String>,
}

/// A copy of an optional string.
fn clone_opt(s: &Option<String>) -> (c: Option<String>)
    ensures
        c == *s,
{
    match s {
        Some(x) => Some(x.clone()),
        None => None,
    }
}

/// The submission of `graph` under Ramsey parameters `(k, ell)`, put in
/// canonical order, on `n` vertices: signed when a secret key is given,
/// over the UTF-8 bytes of the canonical payload.
pub fn submit_request(
    graph: RgxfJson,
    k: u32,
    ell: u32,
    n: u32,
    key_id: &Option<String>,
    secret_key: &Option<[u8; 32]>,
    metadata: &Option<String>,
) -> (r: SubmitRequest)
    ensures
        r.k == if k <= ell { k } else { ell },
        r.ell == if k <= ell { ell } else { k },
        r.n == n,
        r.graph == graph,
        r.key_id == *key_id,
        r.metadata == *metadata,
        match *secret_key {
            Some(sk) => r.signature is Some && r.signature->0@ == hex_lower(
                ed25519_signature(
                    sk@,
                    vstd::utf8::encode_utf8(
                        signing_payload_text(graph.bits_b64@, r.k as nat, r.ell as nat, n as nat),
                    ),
                ),
            ),
            None => r.signature is None,
        },
{
    let (ck, cl) = canonical_params(k, ell);
    let signature = match secret_key {
        Some(sk) => {
            let payload = signing_payload(graph.bits_b64.as_str(), k, ell, n);
            Some(signature_hex(sk, payload.as_str().as_bytes()))
        },
        None => None,
    };
    SubmitRequest {
        k: ck,
        ell: cl,
        n,
        graph,
        key_id: clone_opt(key_id),
        signature,
        metadata: clone_opt(metadata),
    }
}

} // verus!
