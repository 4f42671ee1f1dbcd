//! Content addressing: a graph's CID is the SHA-256 digest of its canonical
//! byte encoding.
//!
//! The canonical encoding is the vertex count as four big-endian bytes,
//! followed by the upper triangle of the adjacency matrix (pairs `i < j`,
//! row by row) packed eight edges to a byte, most significant bit first, the
//! last byte padded with zero bits.

use sha2::Digest;
use vstd::prelude::*;

use crate::graph::AdjacencyMatrix;
use crate::types::GraphCid;

verus! {

/// The SHA-256 digest of `data`.
pub uninterp spec fn sha256_digest(data: Seq<u8>) -> Seq<u8>;

/// `sha2::Sha256::digest`: the 32-byte SHA-256 digest of `data`.
#[verifier::external_body]
pub(crate) fn sha256(data: &[u8]) -> (d: [u8; 32])
    ensures
        d@ == sha256_digest(data@),
{
    sha2::Sha256::digest(data).into()
}

/// The edges of row `i` above the diagonal: pairs `(i, j)` with `i < j`.
pub open spec fn row_tail(g: &AdjacencyMatrix, i: int) -> Seq<bool> {
    Seq::new((g.order() - 1 - i) as nat, |d: int| g.adjacent(i, i + 1 + d))
}

/// The upper-triangle edges of rows `0..i`, row by row.
pub open spec fn utri_prefix(g: &AdjacencyMatrix, i: int) -> Seq<bool>
    decreases i,
{
    if i <= 0 {
        Seq::empty()
    } else {
        utri_prefix(g, i - 1) + row_tail(g, i - 1)
    }
}

/// The upper triangle of the adjacency matrix, row by row.
pub open spec fn utri_bits(g: &AdjacencyMatrix) -> Seq<bool> {
    utri_prefix(g, g.order() as int)
}

/// 1 for a set bit at `i`, 0 otherwise (and past the end).
pub open spec fn bit_value(bits: Seq<bool>, i: int) -> nat {
    if 0 <= i < bits.len() && bits[i] {
        1
    } else {
        0
    }
}

/// The number formed by the `t` bits starting at `s`, most significant first.
pub open spec fn bits_number(bits: Seq<bool>, s: int, t: nat) -> nat
    decreases t,
{
    if t == 0 {
        0
    } else {
        bits_number(bits, s, (t - 1) as nat) * 2 + bit_value(bits, s + t - 1)
    }
}

/// Bits packed eight to a byte, most significant first, zero padded.
pub open spec fn pack_bits(bits: Seq<bool>) -> Seq<u8> {
    Seq::new(
        if bits.len() % 8 == 0 {
            bits.len() / 8
        } else {
            bits.len() / 8 + 1
        },
        |k: int| bits_number(bits, 8 * k, 8) as u8,
    )
}

/// `n` as four big-endian bytes.
pub open spec fn be32(n: nat) -> Seq<u8> {
    seq![(n / 0x100_0000 % 256) as u8, (n / 0x1_0000 % 256) as u8, (n / 0x100 % 256) as u8, (n % 256) as u8]
}

/// The canonical byte encoding of a graph.
pub open spec fn canonical_bytes(g: &AdjacencyMatrix) -> Seq<u8> {
    be32(g.order()) + pack_bits(utri_bits(g))
}

pub(crate) proof fn lemma_bits_number_bound(bits: Seq<bool>, s: int, t: nat)
    ensures
        bits_number(bits, s, t) < vstd::arithmetic::power2::pow2(t),
    decreases t,
{
    if t > 0 {
        lemma_bits_number_bound(bits, s, (t - 1) as nat);
        vstd::arithmetic::power2::lemma_pow2_unfold(t);
    } else {
        vstd::arithmetic::power2::lemma2_to64();
    }
}

/// Equal `t`-bit numbers have equal bits.
proof fn lemma_bits_number_injective(b1: Seq<bool>, b2: Seq<bool>, s: int, t: nat)
    requires
        bits_number(b1, s, t) == bits_number(b2, s, t),
    ensures
        forall|j: int| 0 <= j < t ==> #[trigger] bit_value(b1, s + j) == bit_value(b2, s + j),
    decreases t,
{
    if t > 0 {
        let x1 = bits_number(b1, s, (t - 1) as nat);
        let x2 = bits_number(b2, s, (t - 1) as nat);
        let v1 = bit_value(b1, s + t - 1);
        let v2 = bit_value(b2, s + t - 1);
        assert(x1 * 2 + v1 == x2 * 2 + v2);
        assert(v1 == v2 && x1 == x2);
        lemma_bits_number_injective(b1, b2, s, (t - 1) as nat);
        assert forall|j: int| 0 <= j < t implies #[trigger] bit_value(b1, s + j) == bit_value(
            b2,
            s + j,
        ) by {
            if j < t - 1 {
                assert(bit_value(b1, s + j) == bit_value(b2, s + j));
            }
        }
    }
}

/// Equal packings of equally long bit strings come from equal bit strings.
proof fn lemma_pack_bits_injective(b1: Seq<bool>, b2: Seq<bool>)
    requires
        b1.len() == b2.len(),
        pack_bits(b1) == pack_bits(b2),
    ensures
        b1 == b2,
{
    assert forall|p: int| 0 <= p < b1.len() implies #[trigger] b1[p] == b2[p] by {
        let k = p / 8;
        let j = p % 8;
        assert(0 <= k < pack_bits(b1).len());
        assert(pack_bits(b1)[k] == pack_bits(b2)[k]);
        lemma_bits_number_bound(b1, 8 * k, 8);
        lemma_bits_number_bound(b2, 8 * k, 8);
        vstd::arithmetic::power2::lemma2_to64();
        let x1 = bits_number(b1, 8 * k, 8);
        let x2 = bits_number(b2, 8 * k, 8);
        assert(x1 < 256 && x2 < 256);
        assert(pack_bits(b1)[k] == x1 as u8);
        assert(pack_bits(b2)[k] == x2 as u8);
        assert(x1 == x2);
        lemma_bits_number_injective(b1, b2, 8 * k, 8);
        assert(8 * k + j == p);
        assert(bit_value(b1, 8 * k + j) == bit_value(b2, 8 * k + j));
    }
    assert(b1 =~= b2);
}

/// Length of the upper-triangle prefix of rows `0..m` of an order-`n` graph.
pub open spec fn utri_len(n: nat, m: int) -> nat
    decreases m,
{
    if m <= 0 {
        0
    } else {
        utri_len(n, m - 1) + (n - 1 - (m - 1)) as nat
    }
}

pub(crate) proof fn lemma_utri_prefix_len(g: &AdjacencyMatrix, m: int)
    ensures
        utri_prefix(g, m).len() == utri_len(g.order(), m),
    decreases m,
{
    if m > 0 {
        lemma_utri_prefix_len(g, m - 1);
    }
}

/// Equal upper-triangle prefixes of two graphs of one order have equal row tails.
proof fn lemma_utri_prefix_rows(g1: &AdjacencyMatrix, g2: &AdjacencyMatrix, m: int)
    requires
        g1.order() == g2.order(),
        utri_prefix(g1, m) == utri_prefix(g2, m),
    ensures
        forall|i: int| 0 <= i < m ==> #[trigger] row_tail(g1, i) == row_tail(g2, i),
    decreases m,
{
    if m > 0 {
        let p1 = utri_prefix(g1, m - 1);
        let p2 = utri_prefix(g2, m - 1);
        lemma_utri_prefix_len(g1, m - 1);
        lemma_utri_prefix_len(g2, m - 1);
        let whole = utri_prefix(g1, m);
        assert(whole.subrange(0, p1.len() as int) =~= p1);
        assert(whole.subrange(0, p2.len() as int) =~= p2);
        assert(whole.subrange(p1.len() as int, whole.len() as int) =~= row_tail(g1, m - 1));
        assert(utri_prefix(g2, m).subrange(p2.len() as int, whole.len() as int) =~= row_tail(
            g2,
            m - 1,
        ));
        lemma_utri_prefix_rows(g1, g2, m - 1);
    }
}

/// Distinct well-formed graphs have distinct canonical encodings: the
/// encoding determines the vertex count and every edge.
pub proof fn lemma_canonical_bytes_injective(g1: &AdjacencyMatrix, g2: &AdjacencyMatrix)
    requires
        g1.wf(),
        g2.wf(),
        canonical_bytes(g1) == canonical_bytes(g2),
    ensures
        g1@ == g2@,
{
    let c1 = canonical_bytes(g1);
    let c2 = canonical_bytes(g2);
    assert(c1.subrange(0, 4) =~= be32(g1.order()));
    assert(c2.subrange(0, 4) =~= be32(g2.order()));
    let a: u32 = g1.order() as u32;
    let b: u32 = g2.order() as u32;
    assert(be32(a as nat) == be32(b as nat));
    assert(be32(a as nat)[0] == be32(b as nat)[0]);
    assert(be32(a as nat)[1] == be32(b as nat)[1]);
    assert(be32(a as nat)[2] == be32(b as nat)[2]);
    assert(be32(a as nat)[3] == be32(b as nat)[3]);
    assert(a == b) by (bit_vector)
        requires
            a / 0x100_0000 % 256 == b / 0x100_0000 % 256,
            a / 0x1_0000 % 256 == b / 0x1_0000 % 256,
            a / 0x100 % 256 == b / 0x100 % 256,
            a % 256 == b % 256,
    ;
    let n = g1.order();
    assert(c1.subrange(4, c1.len() as int) =~= pack_bits(utri_bits(g1)));
    assert(c2.subrange(4, c2.len() as int) =~= pack_bits(utri_bits(g2)));
    lemma_utri_prefix_len(g1, n as int);
    lemma_utri_prefix_len(g2, n as int);
    lemma_pack_bits_injective(utri_bits(g1), utri_bits(g2));
    lemma_utri_prefix_rows(g1, g2, n as int);
    assert forall|i: int, j: int| 0 <= i < n && 0 <= j < n implies #[trigger] g1@[i][j]
        == g2@[i][j] by {
        if i < j {
            assert(row_tail(g1, i)[j - i - 1] == row_tail(g2, i)[j - i - 1]);
        } else if j < i {
            assert(row_tail(g1, j)[i - j - 1] == row_tail(g2, j)[i - j - 1]);
        }
    }
    assert forall|i: int| 0 <= i < n implies #[trigger] g1@[i] == g2@[i] by {
        assert(g1@[i] =~= g2@[i]);
    }
    assert(g1@ =~= g2@);
}

/// The upper-triangle edges of the graph, row by row.
pub(crate) fn upper_triangle(g: &AdjacencyMatrix) -> (bits: Vec<bool>)
    requires
        g.wf(),
    ensures
        bits@ == utri_bits(g),
{
    let n = g.n();
    let mut bits: Vec<bool> = Vec::new();
    let mut i: u32 = 0;
    while i < n
        invariant
            g.wf(),
            n == g.order(),
            i <= n,
            bits@ == utri_prefix(g, i as int),
        decreases n - i,
    {
        let ghost before = bits@;
        let mut j: u32 = i + 1;
        while j < n
            invariant
                g.wf(),
                n == g.order(),
                i < n,
                i + 1 <= j <= n,
                bits@ == before + row_tail(g, i as int).take(j - i - 1),
            decreases n - j,
        {
            let e = g.edge(i, j);
            bits.push(e);
            assert(bits@ =~= before + row_tail(g, i as int).take(j - i));
            j = j + 1;
        }
        assert(row_tail(g, i as int).take(n - i - 1) =~= row_tail(g, i as int));
        i = i + 1;
    }
    bits
}

/// Packs bits eight to a byte, most significant first, zero padded.
pub(crate) fn pack(bits: &Vec<bool>) -> (out: Vec<u8>)
    ensures
        out@ == pack_bits(bits@),
{
    let len = bits.len();
    let nbytes = if len % 8 == 0 {
        len / 8
    } else {
        len / 8 + 1
    };
    let mut out: Vec<u8> = Vec::new();
    let mut k: usize = 0;
    while k < nbytes
        invariant
            len == bits@.len(),
            nbytes == packed_len(len as nat),
            k <= nbytes,
            out@.len() == k,
            forall|x: int| 0 <= x < k ==> #[trigger] out@[x] == bits_number(bits@, 8 * x, 8) as u8,
        decreases nbytes - k,
    {
        let mut acc: u32 = 0;
        let mut t: usize = 0;
        while t < 8
            invariant
                len == bits@.len(),
                k < nbytes,
                nbytes == packed_len(len as nat),
                t <= 8,
                acc == bits_number(bits@, 8 * k, t as nat),
            decreases 8 - t,
        {
            proof {
                lemma_bits_number_bound(bits@, 8 * k, t as nat);
                vstd::arithmetic::power2::lemma_pow2_strictly_increases(t as nat, 8);
                vstd::arithmetic::power2::lemma2_to64();
            }
            let pos = 8 * k + t;
            let b: u32 = if pos < len && bits[pos] {
                1
            } else {
                0
            };
            acc = acc * 2 + b;
            t = t + 1;
        }
        proof {
            lemma_bits_number_bound(bits@, 8 * k, 8);
            vstd::arithmetic::power2::lemma2_to64();
        }
        out.push(acc as u8);
        k = k + 1;
    }
    assert(out@ =~= pack_bits(bits@));
    out
}

/// Number of bytes that hold `len` packed bits.
pub open spec fn packed_len(len: nat) -> nat {
    if len % 8 == 0 {
        len / 8
    } else {
        len / 8 + 1
    }
}

/// The canonical byte encoding of a graph.
pub fn to_canonical_bytes(g: &AdjacencyMatrix) -> (out: Vec<u8>)
    requires
        g.wf(),
    ensures
        out@ == canonical_bytes(g),
{
    let n = g.n();
    let mut out: Vec<u8> = Vec::new();
    out.push((n / 0x100_0000 % 256) as u8);
    out.push((n / 0x1_0000 % 256) as u8);
    out.push((n / 0x100 % 256) as u8);
    out.push((n % 256) as u8);
    let bits = upper_triangle(g);
    let packed = pack(&bits);
    let mut k: usize = 0;
    while k < packed.len()
        invariant
            out@ == be32(n as nat) + packed@.take(k as int),
            k <= packed@.len(),
        decreases packed@.len() - k,
    {
        out.push(packed[k]);
        assert(out@ =~= be32(n as nat) + packed@.take(k + 1));
        k = k + 1;
    }
    assert(packed@.take(packed@.len() as int) =~= packed@);
    out
}

/// The content ID of a graph: SHA-256 of its canonical bytes.
pub fn compute_cid(matrix: &AdjacencyMatrix) -> (cid: GraphCid)
    requires
        matrix.wf(),
    ensures
        cid.0@ == sha256_digest(canonical_bytes(matrix)),
{
    let canonical = to_canonical_bytes(matrix);
    GraphCid(sha256(canonical.as_slice()))
}

} // verus!
