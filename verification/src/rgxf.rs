//! RGXF: the interchange form of a graph, the upper triangle of its
//! adjacency matrix packed into bytes and written in base64.

use vstd::prelude::*;
use vstd::arithmetic::power2::pow2;

use crate::cid::{
    bit_value, bits_number, lemma_bits_number_bound, lemma_utri_prefix_len, pack, pack_bits,
    packed_len, row_tail, upper_triangle, utri_bits, utri_len, utri_prefix,
};
use crate::graph::AdjacencyMatrix;

verus! {

/// The code of the base64 digit (standard alphabet, RFC 4648) for a
/// six-bit value: `A-Z`, `a-z`, `0-9`, `+`, `/`.
pub open spec fn b64_code(v: int) -> int {
    if v < 26 {
        v + 65
    } else if v < 52 {
        v + 71
    } else if v < 62 {
        v - 4
    } else if v == 62 {
        43
    } else {
        47
    }
}

/// The base64 digit for a six-bit value.
pub open spec fn b64_char(v: int) -> char {
    b64_code(v) as char
}

/// The six-bit value of a base64 digit, if `c` is one.
pub open spec fn b64_value(c: char) -> Option<int> {
    let x = c as int;
    if 65 <= x <= 90 {
        Some(x - 65)
    } else if 97 <= x <= 122 {
        Some(x - 71)
    } else if 48 <= x <= 57 {
        Some(x + 4)
    } else if x == 43 {
        Some(62)
    } else if x == 47 {
        Some(63)
    } else {
        None
    }
}

proof fn lemma_b64_value_char(v: int)
    requires
        0 <= v < 64,
    ensures
        b64_value(b64_char(v)) == Some(v),
{
}

/// `String::push`: appends the character `c`.
#[verifier::external_body]
fn string_push(s: &mut String, c: char)
    ensures
        final(s)@ == old(s)@.push(c),
{
    s.push(c);
}

/// The base64 digit for a six-bit value.
fn b64_digit(v: u8) -> (c: char)
    requires
        v < 64,
    ensures
        c == b64_char(v as int),
{
    let code: u8 = if v < 26 {
        v + 65
    } else if v < 52 {
        v + 71
    } else if v < 62 {
        v - 4
    } else if v == 62 {
        43
    } else {
        47
    };
    code as char
}

/// The characters of `s`, in order.
fn str_chars(s: &str) -> (v: Vec<char>)
    ensures
        v@ == s@,
{
    broadcast use vstd::string::axiom_spec_iter, vstd::string::next_postcondition;

    let mut it = s.chars();
    let mut v: Vec<char> = Vec::new();
    loop
        invariant
            v@ + vstd::std_specs::iter::IteratorSpec::remaining(&it) == s@,
            vstd::std_specs::iter::IteratorSpec::decrease(&it) is Some,
        ensures
            v@ == s@,
        decreases vstd::std_specs::iter::IteratorSpec::decrease(&it)->0,
    {
        match it.next() {
            Some(c) => {
                v.push(c);
            },
            None => {
                assert(v@ =~= s@);
                break;
            },
        }
    }
    v
}

/// The six-bit value of a base64 digit, if `c` is one.
fn b64_digit_value(c: char) -> (r: Option<u8>)
    ensures
        match r {
            Some(v) => b64_value(c) == Some(v as int),
            None => b64_value(c) is None,
        },
{
    let x = c as u32;
    if 65 <= x && x <= 90 {
        Some((x - 65) as u8)
    } else if 97 <= x && x <= 122 {
        Some((x - 71) as u8)
    } else if 48 <= x && x <= 57 {
        Some((x + 4) as u8)
    } else if x == 43 {
        Some(62)
    } else if x == 47 {
        Some(63)
    } else {
        None
    }
}

/// Base64 of three bytes: four digits.
pub open spec fn b64_group3(x: int, y: int, z: int) -> Seq<char> {
    seq![
        b64_char(x / 4),
        b64_char((x % 4) * 16 + y / 16),
        b64_char((y % 16) * 4 + z / 64),
        b64_char(z % 64),
    ]
}

/// Base64 of two final bytes: three digits and one `=`.
pub open spec fn b64_group2(x: int, y: int) -> Seq<char> {
    seq![b64_char(x / 4), b64_char((x % 4) * 16 + y / 16), b64_char((y % 16) * 4), '=']
}

/// Base64 of one final byte: two digits and two `=`.
pub open spec fn b64_group1(x: int) -> Seq<char> {
    seq![b64_char(x / 4), b64_char((x % 4) * 16), '=', '=']
}

/// Standard base64 (RFC 4648) with `=` padding.
pub open spec fn b64_encode(b: Seq<u8>) -> Seq<char>
    decreases b.len(),
{
    if b.len() == 0 {
        Seq::empty()
    } else if b.len() == 1 {
        b64_group1(b[0] as int)
    } else if b.len() == 2 {
        b64_group2(b[0] as int, b[1] as int)
    } else {
        b64_group3(b[0] as int, b[1] as int, b[2] as int) + b64_encode(b.skip(3))
    }
}

/// Decoding of base64: groups of four digits give three bytes; the last
/// group may end in `=` (two bytes) or `==` (one byte). Bits that no byte
/// holds are ignored. Anything else is refused.
pub open spec fn b64_decode(s: Seq<char>) -> Option<Seq<u8>>
    decreases s.len(),
{
    if s.len() == 0 {
        Some(Seq::empty())
    } else if s.len() < 4 {
        None
    } else {
        let a = b64_value(s[0]);
        let b = b64_value(s[1]);
        let c = b64_value(s[2]);
        let d = b64_value(s[3]);
        if a is Some && b is Some && c is Some && d is Some {
            match b64_decode(s.skip(4)) {
                Some(rest) => Some(
                    seq![
                        (a->0 * 4 + b->0 / 16) as u8,
                        ((b->0 % 16) * 16 + c->0 / 4) as u8,
                        ((c->0 % 4) * 64 + d->0) as u8,
                    ] + rest,
                ),
                None => None,
            }
        } else if s.len() == 4 && a is Some && b is Some && c is Some && s[3] == '=' {
            Some(seq![(a->0 * 4 + b->0 / 16) as u8, ((b->0 % 16) * 16 + c->0 / 4) as u8])
        } else if s.len() == 4 && a is Some && b is Some && s[2] == '=' && s[3] == '=' {
            Some(seq![(a->0 * 4 + b->0 / 16) as u8])
        } else {
            None
        }
    }
}

/// Base64 text of `b`.
pub fn b64_encode_bytes(b: &[u8]) -> (s: String)
    ensures
        s@ == b64_encode(b@),
{
    let len = b.len();
    let mut out = String::new();
    let mut i: usize = 0;
    assert(b@.skip(0) =~= b@);
    assert(out@ + b64_encode(b@) =~= b64_encode(b@));
    while len - i >= 3
        invariant
            len == b@.len(),
            i <= len,
            out@ + b64_encode(b@.skip(i as int)) == b64_encode(b@),
        decreases len - i,
    {
        let x = b[i];
        let y = b[i + 1];
        let z = b[i + 2];
        let ghost rest = b@.skip(i as int);
        assert(rest.skip(3) =~= b@.skip(i + 3));
        assert(b64_encode(rest) == b64_group3(x as int, y as int, z as int) + b64_encode(b@.skip(i + 3)));
        let ghost before = out@;
        string_push(&mut out, b64_digit(x / 4));
        string_push(&mut out, b64_digit((x % 4) * 16 + y / 16));
        string_push(&mut out, b64_digit((y % 16) * 4 + z / 64));
        string_push(&mut out, b64_digit(z % 64));
        assert(out@ =~= before + b64_group3(x as int, y as int, z as int));
        i = i + 3;
    }
    let ghost before = out@;
    let ghost rest = b@.skip(i as int);
    if len - i == 1 {
        let x = b[i];
        string_push(&mut out, b64_digit(x / 4));
        string_push(&mut out, b64_digit((x % 4) * 16));
        string_push(&mut out, '=');
        string_push(&mut out, '=');
        assert(out@ =~= before + b64_group1(x as int));
    } else if len - i == 2 {
        let x = b[i];
        let y = b[i + 1];
        string_push(&mut out, b64_digit(x / 4));
        string_push(&mut out, b64_digit((x % 4) * 16 + y / 16));
        string_push(&mut out, b64_digit((y % 16) * 4));
        string_push(&mut out, '=');
        assert(out@ =~= before + b64_group2(x as int, y as int));
    } else {
        assert(rest.len() == 0);
        assert(out@ =~= before + b64_encode(rest));
    }
    out
}

/// The bytes that base64 text `s` encodes, or `None` if it is not base64.
pub fn b64_decode_str(s: &str) -> (r: Option<Vec<u8>>)
    ensures
        match r {
            Some(v) => b64_decode(s@) == Some(v@),
            None => b64_decode(s@) is None,
        },
{
    let cs = str_chars(s);
    let len = cs.len();
    let mut out: Vec<u8> = Vec::new();
    let mut i: usize = 0;
    assert(cs@.skip(0) =~= cs@);
    proof {
        match b64_decode(cs@) {
            Some(r) => {
                assert(out@ + r =~= r);
            },
            None => {},
        }
    }
    while i < len
        invariant
            len == cs@.len(),
            cs@ == s@,
            i <= len,
            b64_decode(s@) == match b64_decode(cs@.skip(i as int)) {
                Some(r) => Some(out@ + r),
                None => None::<Seq<u8>>,
            },
        decreases len - i,
    {
        let ghost rest = cs@.skip(i as int);
        if len - i < 4 {
            return None;
        }
        assert(rest[0] == cs@[i as int] && rest[1] == cs@[i + 1] && rest[2] == cs@[i + 2] && rest[3] == cs@[i + 3]);
        assert(rest.skip(4) =~= cs@.skip(i + 4));
        let a = b64_digit_value(cs[i]);
        let b = b64_digit_value(cs[i + 1]);
        let c = b64_digit_value(cs[i + 2]);
        let d = b64_digit_value(cs[i + 3]);
        match (a, b, c, d) {
            (Some(a), Some(b), Some(c), Some(d)) => {
                let ghost before = out@;
                out.push(a * 4 + b / 16);
                out.push((b % 16) * 16 + c / 4);
                out.push((c % 4) * 64 + d);
                proof {
                    let q = seq![
                        (a * 4 + b / 16) as u8,
                        ((b % 16) * 16 + c / 4) as u8,
                        ((c % 4) * 64 + d) as u8,
                    ];
                    assert(out@ =~= before + q);
                    match b64_decode(cs@.skip(i + 4)) {
                        Some(r2) => {
                            assert(before + (q + r2) =~= out@ + r2);
                        },
                        None => {},
                    }
                }
                i = i + 4;
            },
            _ => {
                if len - i == 4 {
                    match (a, b, c) {
                        (Some(a), Some(b), Some(c)) => {
                            if cs[i + 3] == '=' {
                                out.push(a * 4 + b / 16);
                                out.push((b % 16) * 16 + c / 4);
                                return Some(out);
                            }
                        },
                        (Some(a), Some(b), None) => {
                            if cs[i + 2] == '=' && cs[i + 3] == '=' {
                                out.push(a * 4 + b / 16);
                                return Some(out);
                            }
                        },
                        _ => {},
                    }
                }
                return None;
            },
        }
    }
    assert(cs@.skip(i as int) =~= Seq::<char>::empty());
    assert(out@ + Seq::<u8>::empty() =~= out@);
    Some(out)
}

/// Decoding base64 text gives back the bytes it was made from.
pub proof fn lemma_b64_roundtrip(b: Seq<u8>)
    ensures
        b64_decode(b64_encode(b)) == Some(b),
    decreases b.len(),
{
    if b.len() == 0 {
    } else if b.len() == 1 {
        let x = b[0] as int;
        lemma_b64_value_char(x / 4);
        lemma_b64_value_char((x % 4) * 16);
        let s = b64_group1(x);
        assert(b64_value('=') is None);
        assert((x / 4 * 4 + (x % 4) * 16 / 16) as u8 == b[0]);
        assert(b64_decode(s) == Some(seq![b[0]]));
        assert(seq![b[0]] =~= b);
    } else if b.len() == 2 {
        let x = b[0] as int;
        let y = b[1] as int;
        lemma_b64_value_char(x / 4);
        lemma_b64_value_char((x % 4) * 16 + y / 16);
        lemma_b64_value_char((y % 16) * 4);
        assert(b64_value('=') is None);
        assert((x / 4 * 4 + ((x % 4) * 16 + y / 16) / 16) as u8 == b[0]);
        assert(((((x % 4) * 16 + y / 16) % 16) * 16 + (y % 16) * 4 / 4) as u8 == b[1]);
        assert(b64_decode(b64_group2(x, y)) == Some(seq![b[0], b[1]]));
        assert(seq![b[0], b[1]] =~= b);
    } else {
        let x = b[0] as int;
        let y = b[1] as int;
        let z = b[2] as int;
        lemma_b64_value_char(x / 4);
        lemma_b64_value_char((x % 4) * 16 + y / 16);
        lemma_b64_value_char((y % 16) * 4 + z / 64);
        lemma_b64_value_char(z % 64);
        lemma_b64_roundtrip(b.skip(3));
        let s = b64_encode(b);
        let g = b64_group3(x, y, z);
        assert(s.skip(4) =~= b64_encode(b.skip(3)));
        assert(s[0] == g[0] && s[1] == g[1] && s[2] == g[2] && s[3] == g[3]);
        assert((x / 4 * 4 + ((x % 4) * 16 + y / 16) / 16) as u8 == b[0]);
        assert(((((x % 4) * 16 + y / 16) % 16) * 16 + ((y % 16) * 4 + z / 64) / 4) as u8 == b[1]);
        assert(((((y % 16) * 4 + z / 64) % 4) * 64 + z % 64) as u8 == b[2]);
        assert(seq![b[0], b[1], b[2]] + b.skip(3) =~= b);
    }
}

/// Name of the RGXF encoding: the packed upper triangle in base64.
pub const RGXF_ENCODING: &'static str = "utri_b64_v1";

/// A graph in RGXF form, as it travels in JSON.
#[derive(Clone, Debug)]
pub struct RgxfJson {
    /// Number of vertices.
    pub n: u32,
    /// Encoding name; `utri_b64_v1` is the one known.
    pub encoding: String,
    /// Base64 of the upper triangle (pairs `i < j`, row by row) packed
    /// eight edges to a byte, most significant bit first.
    pub bits_b64: String,
}

/// Why an RGXF value could not be read as a graph.
#[derive(Clone, Copy, Debug, PartialEq, Eq, Structural)]
pub enum RgxfError {
    /// The encoding is not `utri_b64_v1`.
    UnsupportedEncoding,
    /// The bit string is not base64.
    InvalidBase64,
    /// The decoded bytes are not as many as `n` vertices need.
    LengthMismatch { expected: u64, actual: u64 },
}

/// Bit `j` of a byte, counted from the most significant (`j = 0`).
pub open spec fn byte_bit(x: u8, j: int) -> bool {
    (x as nat / pow2((7 - j) as nat)) % 2 == 1
}

/// The first `len` bits of `bytes`, most significant bit of each byte first.
pub open spec fn unpack_bits(bytes: Seq<u8>, len: nat) -> Seq<bool> {
    Seq::new(len, |p: int| byte_bit(bytes[p / 8], p % 8))
}

/// Position of the pair `(i, j)`, `i < j`, in the upper triangle of an
/// order-`n` graph.
pub open spec fn utri_index(n: nat, i: int, j: int) -> int {
    utri_len(n, i) + (j - i - 1)
}

/// The order-`n` graph whose upper triangle, row by row, is `bits`.
pub open spec fn graph_from_utri(n: nat, bits: Seq<bool>) -> Seq<Seq<bool>> {
    Seq::new(
        n,
        |i: int|
            Seq::new(
                n,
                |j: int|
                    if i < j {
                        bits[utri_index(n, i, j)]
                    } else if j < i {
                        bits[utri_index(n, j, i)]
                    } else {
                        false
                    },
            ),
    )
}

/// The RGXF bit string of a graph.
pub open spec fn rgxf_text(g: &AdjacencyMatrix) -> Seq<char> {
    b64_encode(pack_bits(utri_bits(g)))
}

/// The graph an RGXF value describes, or why it describes none.
pub open spec fn rgxf_decode(n: u32, encoding: Seq<char>, bits: Seq<char>) -> Result<
    Seq<Seq<bool>>,
    RgxfError,
> {
    if encoding != "utri_b64_v1"@ {
        Err(RgxfError::UnsupportedEncoding)
    } else {
        match b64_decode(bits) {
            None => Err(RgxfError::InvalidBase64),
            Some(bytes) => {
                let l = utri_len(n as nat, n as int);
                if bytes.len() != packed_len(l) {
                    Err(
                        RgxfError::LengthMismatch {
                            expected: packed_len(l) as u64,
                            actual: bytes.len() as u64,
                        },
                    )
                } else {
                    Ok(graph_from_utri(n as nat, unpack_bits(bytes, l)))
                }
            },
        }
    }
}

/// `2 * utri_len(n, m) == m * (2n - m - 1)`.
proof fn lemma_utri_len_formula(n: nat, m: int)
    requires
        0 <= m <= n,
    ensures
        2 * utri_len(n, m) == m * (2 * n - m - 1),
    decreases m,
{
    if m > 0 {
        lemma_utri_len_formula(n, m - 1);
        let u = utri_len(n, m - 1);
        assert(2 * u + 2 * (n - m) == m * (2 * n - m - 1)) by (nonlinear_arith)
            requires
                2 * u == (m - 1) * (2 * n - (m - 1) - 1),
        ;
        assert(utri_len(n, m) == u + (n - m));
    } else {
        assert(m * (2 * n - m - 1) == 0) by (nonlinear_arith)
            requires
                m == 0,
        ;
    }
}

proof fn lemma_utri_len_mono(n: nat, a: int, b: int)
    requires
        0 <= a <= b <= n,
    ensures
        utri_len(n, a) <= utri_len(n, b),
    decreases b - a,
{
    if a < b {
        lemma_utri_len_mono(n, a, b - 1);
    }
}

/// Entry `d` of row `a`'s tail sits at `utri_len(n, a) + d` in the prefix.
proof fn lemma_utri_prefix_index(g: &AdjacencyMatrix, m: int, a: int, d: int)
    requires
        0 <= a < m <= g.order(),
        0 <= d < g.order() - 1 - a,
    ensures
        utri_len(g.order(), a) + d < utri_prefix(g, m).len(),
        utri_prefix(g, m)[utri_len(g.order(), a) + d] == row_tail(g, a)[d],
    decreases m,
{
    let n = g.order();
    lemma_utri_prefix_len(g, m);
    lemma_utri_prefix_len(g, m - 1);
    if a < m - 1 {
        lemma_utri_prefix_index(g, m - 1, a, d);
    }
}

/// Bit `j` of a `t`-bit number is the `j`-th bit it was formed from.
proof fn lemma_bits_number_bit(bits: Seq<bool>, s: int, t: nat, j: int)
    requires
        0 <= j < t,
    ensures
        (bits_number(bits, s, t) / pow2((t - 1 - j) as nat)) % 2 == bit_value(bits, s + j),
    decreases t,
{
    let x = bits_number(bits, s, (t - 1) as nat);
    let v = bit_value(bits, s + t - 1);
    assert(bits_number(bits, s, t) == x * 2 + v);
    assert(v == 0 || v == 1);
    if j == t - 1 {
        vstd::arithmetic::power2::lemma2_to64();
        assert(pow2((t - 1 - j) as nat) == 1);
        assert((x * 2 + v) / 1 == x * 2 + v);
        assert((x * 2 + v) % 2 == v);
    } else {
        let e = (t - 1 - j) as nat;
        let q = pow2((e - 1) as nat);
        vstd::arithmetic::power2::lemma_pow2_unfold(e);
        vstd::arithmetic::power2::lemma_pow2_pos((e - 1) as nat);
        vstd::arithmetic::div_mod::lemma_div_denominator((x * 2 + v) as int, 2, q as int);
        assert((x * 2 + v) / 2 == x);
        assert(pow2(e) == 2 * q);
        assert((x * 2 + v) / pow2(e) == x / q);
        lemma_bits_number_bit(bits, s, (t - 1) as nat, j);
        assert(((t - 1) as nat - 1 - j) as nat == (e - 1) as nat);
    }
}

/// Unpacking packed bits gives them back.
proof fn lemma_unpack_pack(bits: Seq<bool>)
    ensures
        unpack_bits(pack_bits(bits), bits.len()) == bits,
{
    let u = unpack_bits(pack_bits(bits), bits.len());
    assert forall|p: int| 0 <= p < bits.len() implies #[trigger] u[p] == bits[p] by {
        let k = p / 8;
        let j = p % 8;
        lemma_bits_number_bound(bits, 8 * k, 8);
        vstd::arithmetic::power2::lemma2_to64();
        let x = bits_number(bits, 8 * k, 8);
        assert(pack_bits(bits)[k] == x as u8);
        assert((x as u8) as nat == x);
        lemma_bits_number_bit(bits, 8 * k, 8, j);
        assert(8 * k + j == p);
    }
    assert(u =~= bits);
}

/// Reading back the RGXF form of a graph gives the graph.
pub proof fn lemma_rgxf_roundtrip(g: &AdjacencyMatrix)
    requires
        g.wf(),
    ensures
        rgxf_decode(g.order() as u32, "utri_b64_v1"@, rgxf_text(g)) == Ok::<
            Seq<Seq<bool>>,
            RgxfError,
        >(g@),
{
    let n = g.order();
    let u = utri_bits(g);
    lemma_b64_roundtrip(pack_bits(u));
    lemma_utri_prefix_len(g, n as int);
    lemma_unpack_pack(u);
    let h = graph_from_utri(n, u);
    assert forall|i: int, j: int| 0 <= i < n && 0 <= j < n implies #[trigger] h[i][j] == g@[i][j] by {
        if i < j {
            lemma_utri_prefix_index(g, n as int, i, j - i - 1);
        } else if j < i {
            lemma_utri_prefix_index(g, n as int, j, i - j - 1);
        }
    }
    assert forall|i: int| 0 <= i < n implies #[trigger] h[i] == g@[i] by {
        assert(h[i] =~= g@[i]);
    }
    assert(h =~= g@);
}

/// Bit `j` of byte `x`, counted from the most significant.
fn byte_bit_at(x: u8, j: u8) -> (b: bool)
    requires
        j < 8,
    ensures
        b == byte_bit(x, j as int),
{
    proof {
        vstd::arithmetic::power2::lemma2_to64();
    }
    let w: u8 = if j == 0 {
        128
    } else if j == 1 {
        64
    } else if j == 2 {
        32
    } else if j == 3 {
        16
    } else if j == 4 {
        8
    } else if j == 5 {
        4
    } else if j == 6 {
        2
    } else {
        1
    };
    assert(w as nat == pow2((7 - j) as nat));
    (x / w) % 2 == 1
}

/// The RGXF form of a graph.
pub fn to_json(g: &AdjacencyMatrix) -> (j: RgxfJson)
    requires
        g.wf(),
    ensures
        j.n == g.order(),
        j.encoding@ == "utri_b64_v1"@,
        j.bits_b64@ == rgxf_text(g),
{
    let bits = upper_triangle(g);
    let bytes = pack(&bits);
    let encoding = String::from_str(RGXF_ENCODING);
    proof {
        reveal_strlit("utri_b64_v1");
    }
    RgxfJson { n: g.n(), encoding, bits_b64: b64_encode_bytes(bytes.as_slice()) }
}

/// The graph an RGXF value describes.
pub fn from_json(json: &RgxfJson) -> (r: Result<AdjacencyMatrix, RgxfError>)
    ensures
        match r {
            Ok(g) => g.wf() && rgxf_decode(json.n, json.encoding@, json.bits_b64@) == Ok::<
                Seq<Seq<bool>>,
                RgxfError,
            >(g@),
            Err(e) => rgxf_decode(json.n, json.encoding@, json.bits_b64@) == Err::<
                Seq<Seq<bool>>,
                RgxfError,
            >(e),
        },
{
    let expected_name = String::from_str(RGXF_ENCODING);
    proof {
        reveal_strlit("utri_b64_v1");
    }
    if json.encoding != expected_name {
        return Err(RgxfError::UnsupportedEncoding);
    }
    let bytes = match b64_decode_str(json.bits_b64.as_str()) {
        Some(b) => b,
        None => {
            return Err(RgxfError::InvalidBase64);
        },
    };
    let n = json.n;
    let n64 = n as u64;
    let ghost l = utri_len(n as nat, n as int);
    proof {
        lemma_utri_len_formula(n as nat, n as int);
    }
    let total: u64 = if n64 == 0 {
        0
    } else {
        assert(n64 * (n64 - 1) <= u64::MAX) by (nonlinear_arith)
            requires
                n64 <= u32::MAX,
                n64 >= 1,
        ;
        n64 * (n64 - 1) / 2
    };
    assert(total == l) by (nonlinear_arith)
        requires
            2 * l == n64 * (2 * n64 - n64 - 1),
            n64 == 0 ==> total == 0,
            n64 >= 1 ==> total == n64 * (n64 - 1) / 2,
    ;
    let expected: u64 = if total % 8 == 0 {
        total / 8
    } else {
        total / 8 + 1
    };
    if bytes.len() as u64 != expected {
        return Err(RgxfError::LengthMismatch { expected, actual: bytes.len() as u64 });
    }
    let ghost bits = unpack_bits(bytes@, l);
    let mut g = AdjacencyMatrix::new(n);
    let mut i: u32 = 0;
    let mut p: u64 = 0;
    while i < n
        invariant
            g.wf(),
            g.order() == n,
            bytes@.len() == packed_len(l),
            l == utri_len(n as nat, n as int),
            l == total,
            bits == unpack_bits(bytes@, l),
            i <= n,
            p == utri_len(n as nat, i as int),
            forall|a: int, b: int|
                0 <= a < b < n ==> #[trigger] g.adjacent(a, b) == if a < i {
                    bits[utri_index(n as nat, a, b)]
                } else {
                    false
                },
        decreases n - i,
    {
        let mut j: u32 = i + 1;
        while j < n
            invariant
                g.wf(),
                g.order() == n,
                bytes@.len() == packed_len(l),
                l == utri_len(n as nat, n as int),
                l == total,
                bits == unpack_bits(bytes@, l),
                i < n,
                i + 1 <= j <= n,
                p == utri_len(n as nat, i as int) + (j - i - 1),
                forall|a: int, b: int|
                    0 <= a < b < n ==> #[trigger] g.adjacent(a, b) == if a < i || (a == i && b < j) {
                        bits[utri_index(n as nat, a, b)]
                    } else {
                        false
                    },
            decreases n - j,
        {
            proof {
                lemma_utri_len_mono(n as nat, i + 1, n as int);
                assert(p < l);
                assert(p / 8 < packed_len(l)) by (nonlinear_arith)
                    requires
                        p < l,
                        packed_len(l) == if l % 8 == 0 {
                            l / 8
                        } else {
                            l / 8 + 1
                        },
                ;
            }
            let byte = bytes[(p / 8) as usize];
            let bit = byte_bit_at(byte, (p % 8) as u8);
            assert(bit == bits[p as int]);
            g.set_edge(i, j, bit);
            p = p + 1;
            j = j + 1;
        }
        i = i + 1;
    }
    proof {
        let h = graph_from_utri(n as nat, bits);
        assert forall|a: int, b: int| 0 <= a < n && 0 <= b < n implies #[trigger] h[a][b]
            == g@[a][b] by {
            if a < b {
                assert(g.adjacent(a, b) == bits[utri_index(n as nat, a, b)]);
            } else if b < a {
                assert(g.adjacent(b, a) == g@[a][b]);
            }
        }
        assert forall|a: int| 0 <= a < n implies #[trigger] h[a] == g@[a] by {
            assert(h[a] =~= g@[a]);
        }
        assert(h =~= g@);
    }
    Ok(g)
}

} // verus!
