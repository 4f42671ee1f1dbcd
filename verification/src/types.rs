//! Protocol identifiers: graph content IDs, challenge IDs, Ramsey parameters
//! and verdicts.

use vstd::prelude::*;
use vstd::string::StringSliceAdditionalSpecFns;

use crate::text::{decimal, push_decimal};

verus! {

/// Protocol version string.
pub const PROTOCOL_VERSION: &'static str = "0.1.0";

/// Why a hex string could not be decoded.
#[derive(Clone, Copy, Debug, PartialEq, Eq)]
pub enum HexError {
    /// A byte that is not `0-9`, `a-f` or `A-F`, at the given byte index.
    InvalidHexCharacter { c: char, index: usize },
    /// The string has an odd number of bytes.
    OddLength,
    /// The decoded bytes do not have the expected length.
    InvalidStringLength,
}

/// Lower-case hex digit for `v` (`v < 16`).
pub open spec fn hex_digit_lower(v: nat) -> char {
    seq!['0', '1', '2', '3', '4', '5', '6', '7', '8', '9', 'a', 'b', 'c', 'd', 'e', 'f'][v as int]
}

/// Lower-case hex encoding: two digits per byte, high nibble first.
pub open spec fn hex_lower(b: Seq<u8>) -> Seq<char> {
    Seq::new(
        2 * b.len(),
        |i: int|
            if i % 2 == 0 {
                hex_digit_lower((b[i / 2] / 16) as nat)
            } else {
                hex_digit_lower((b[i / 2] % 16) as nat)
            },
    )
}

/// The value of one hex digit byte, if it is one.
pub open spec fn hex_nibble(c: u8) -> Option<u8> {
    if 48 <= c <= 57 {
        Some((c - 48) as u8)
    } else if 97 <= c <= 102 {
        Some((c - 87) as u8)
    } else if 65 <= c <= 70 {
        Some((c - 55) as u8)
    } else {
        None
    }
}

/// Index of the first byte at or after `i` that is not a hex digit, or the length.
pub open spec fn first_non_hex(b: Seq<u8>, i: int) -> int
    decreases b.len() - i,
{
    if i >= b.len() || i < 0 {
        b.len() as int
    } else if hex_nibble(b[i]) is None {
        i
    } else {
        first_non_hex(b, i + 1)
    }
}

/// Hex decoding of a byte string: both cases accepted, high nibble first.
pub open spec fn hex_decode_spec(b: Seq<u8>) -> Result<Seq<u8>, HexError> {
    if b.len() % 2 != 0 {
        Err(HexError::OddLength)
    } else if first_non_hex(b, 0) < b.len() {
        let i = first_non_hex(b, 0);
        Err(HexError::InvalidHexCharacter { c: b[i] as char, index: i as usize })
    } else {
        Ok(
            Seq::new(
                b.len() / 2,
                |i: int| (hex_nibble(b[2 * i])->0 * 16 + hex_nibble(b[2 * i + 1])->0) as u8,
            ),
        )
    }
}

/// `hex::encode`: the lower-case hex encoding of `data`.
#[verifier::external_body]
pub(crate) fn hex_encode(data: &[u8]) -> (s: String)
    ensures
        s@ == hex_lower(data@),
{
    hex::encode(data)
}

/// `hex::decode`: decodes the bytes of `s` as hex. Its error is rendered
/// variant by variant in this crate's `HexError`.
#[verifier::external_body]
pub(crate) fn hex_decode(s: &str) -> (r: Result<Vec<u8>, HexError>)
    ensures
        match r {
            Ok(v) => hex_decode_spec(s.spec_bytes()) == Ok::<Seq<u8>, HexError>(v@),
            Err(e) => hex_decode_spec(s.spec_bytes()) == Err::<Seq<u8>, HexError>(e),
        },
{
    match hex::decode(s) {
        Ok(v) => Ok(v),
        Err(hex::FromHexError::InvalidHexCharacter { c, index }) => Err(
            HexError::InvalidHexCharacter { c, index },
        ),
        Err(hex::FromHexError::OddLength) => Err(HexError::OddLength),
        Err(hex::FromHexError::InvalidStringLength) => Err(HexError::InvalidStringLength),
    }
}

/// Each lower-case hex digit is an ASCII character that decodes to its value.
proof fn lemma_hex_digit(v: nat)
    requires
        v < 16,
    ensures
        '\0' <= hex_digit_lower(v) <= '\u{7f}',
        hex_nibble(hex_digit_lower(v) as u8) == Some(v as u8),
{
    let t = seq!['0', '1', '2', '3', '4', '5', '6', '7', '8', '9', 'a', 'b', 'c', 'd', 'e', 'f'];
    assert(hex_digit_lower(v) == t[v as int]);
    if v == 0 {
    } else if v == 1 {
    } else if v == 2 {
    } else if v == 3 {
    } else if v == 4 {
    } else if v == 5 {
    } else if v == 6 {
    } else if v == 7 {
    } else if v == 8 {
    } else if v == 9 {
    } else if v == 10 {
    } else if v == 11 {
    } else if v == 12 {
    } else if v == 13 {
    } else if v == 14 {
    } else if v == 15 {
    }
}

proof fn lemma_all_hex(b: Seq<u8>, i: int)
    requires
        0 <= i <= b.len(),
        forall|j: int| i <= j < b.len() ==> #[trigger] hex_nibble(b[j]) is Some,
    ensures
        first_non_hex(b, i) == b.len(),
    decreases b.len() - i,
{
    if i < b.len() {
        lemma_all_hex(b, i + 1);
    }
}

/// Hex-encoding bytes and decoding the encoding's UTF-8 bytes gives the
/// bytes back.
pub proof fn lemma_hex_roundtrip(b: Seq<u8>)
    ensures
        hex_decode_spec(vstd::utf8::encode_utf8(hex_lower(b))) == Ok::<Seq<u8>, HexError>(b),
{
    let h = hex_lower(b);
    assert forall|i: int| 0 <= i < h.len() implies '\0' <= #[trigger] h[i] <= '\u{7f}' by {
        if i % 2 == 0 {
            lemma_hex_digit((b[i / 2] / 16) as nat);
        } else {
            lemma_hex_digit((b[i / 2] % 16) as nat);
        }
    }
    vstd::utf8::is_ascii_chars_encode_utf8(h);
    let e = vstd::utf8::encode_utf8(h);
    assert forall|j: int| 0 <= j < e.len() implies #[trigger] hex_nibble(e[j]) is Some
        && hex_nibble(e[j])->0 == if j % 2 == 0 {
        b[j / 2] / 16
    } else {
        b[j / 2] % 16
    } by {
        assert(h[j] as u8 == e[j]);
        if j % 2 == 0 {
            lemma_hex_digit((b[j / 2] / 16) as nat);
        } else {
            lemma_hex_digit((b[j / 2] % 16) as nat);
        }
    }
    lemma_all_hex(e, 0);
    let d = Seq::new(
        e.len() / 2,
        |i: int| (hex_nibble(e[2 * i])->0 * 16 + hex_nibble(e[2 * i + 1])->0) as u8,
    );
    assert forall|i: int| 0 <= i < b.len() implies d[i] == b[i] by {
        assert(hex_nibble(e[2 * i])->0 == b[i] / 16);
        assert(hex_nibble(e[2 * i + 1])->0 == b[i] % 16);
    }
    assert(d =~= b);
}

/// Parsing a content ID's hex rendering gives the content ID back.
pub proof fn lemma_cid_hex_roundtrip(cid: GraphCid)
    ensures
        cid_from_hex_spec(vstd::utf8::encode_utf8(hex_lower(cid.0@))) == Ok::<Seq<u8>, HexError>(
            cid.0@,
        ),
{
    lemma_hex_roundtrip(cid.0@);
}

/// SHA-256 content identifier for a graph artifact.
#[derive(Clone, Copy, Debug, PartialEq, Eq, Hash)]
pub struct GraphCid(pub [u8; 32]);

/// What `GraphCid::from_hex` gives for a string with bytes `b`.
pub open spec fn cid_from_hex_spec(b: Seq<u8>) -> Result<Seq<u8>, HexError> {
    match hex_decode_spec(b) {
        Ok(bytes) => if bytes.len() == 32 {
            Ok(bytes)
        } else {
            Err(HexError::InvalidStringLength)
        },
        Err(e) => Err(e),
    }
}

impl GraphCid {
    /// Lower-case hex rendering of the 32 bytes.
    pub fn to_hex(&self) -> (s: String)
        ensures
            s@ == hex_lower(self.0@),
    {
        hex_encode(&self.0)
    }

    /// Parses 64 hex digits (either case) into a content ID.
    pub fn from_hex(s: &str) -> (r: Result<GraphCid, HexError>)
        ensures
            match r {
                Ok(cid) => cid_from_hex_spec(s.spec_bytes()) == Ok::<Seq<u8>, HexError>(cid.0@),
                Err(e) => cid_from_hex_spec(s.spec_bytes()) == Err::<Seq<u8>, HexError>(e),
            },
    {
        let bytes = hex_decode(s)?;
        if bytes.len() != 32 {
            return Err(HexError::InvalidStringLength);
        }
        let mut arr = [0u8; 32];
        let mut i: usize = 0;
        while i < 32
            invariant
                bytes@.len() == 32,
                0 <= i <= 32,
                forall|j: int| 0 <= j < i ==> #[trigger] arr@[j] == bytes@[j],
            decreases 32 - i,
        {
            arr[i] = bytes[i];
            i = i + 1;
        }
        assert(arr@ =~= bytes@);
        Ok(GraphCid(arr))
    }

    /// Byte-wise equality of two content IDs.
    pub fn same(&self, other: &GraphCid) -> (b: bool)
        ensures
            b == (self.0@ == other.0@),
    {
        let mut i: usize = 0;
        while i < 32
            invariant
                0 <= i <= 32,
                forall|j: int| 0 <= j < i ==> self.0@[j] == other.0@[j],
            decreases 32 - i,
        {
            if self.0[i] != other.0[i] {
                return false;
            }
            i = i + 1;
        }
        assert(self.0@ =~= other.0@);
        true
    }
}

/// Identifier for a Ramsey challenge arena.
#[derive(Clone, Debug, PartialEq, Eq, Hash)]
pub struct ChallengeId(pub String);

/// The canonical challenge ID text `ramsey:{k}:{ell}:v1`.
pub open spec fn challenge_id_text(k: nat, ell: nat) -> Seq<char> {
    seq!['r', 'a', 'm', 's', 'e', 'y', ':'] + decimal(k) + seq![':'] + decimal(ell) + seq![':', 'v', '1']
}

impl ChallengeId {
    /// The canonical challenge ID for Ramsey parameters `(k, ell)`.
    pub fn new(k: u32, ell: u32) -> (id: Self)
        ensures
            id.0@ == challenge_id_text(k as nat, ell as nat),
    {
        let mut s = String::from_str("ramsey:");
        push_decimal(&mut s, k as u64);
        s.append(":");
        push_decimal(&mut s, ell as u64);
        s.append(":v1");
        proof {
            reveal_strlit("ramsey:");
            reveal_strlit(":");
            reveal_strlit(":v1");
        }
        assert(s@ =~= challenge_id_text(k as nat, ell as nat));
        ChallengeId(s)
    }
}

/// Ramsey parameters `(k, ell)`: graphs with no `k`-clique and no
/// `ell`-independent set are sought.
#[derive(Clone, Debug, PartialEq, Eq)]
pub struct RamseyParams {
    pub k: u32,
    pub ell: u32,
}

/// Verification verdict.
#[derive(Clone, Copy, Debug, PartialEq, Eq)]
pub enum Verdict {
    Accepted,
    Rejected,
}

/// The lower-case name of a verdict.
pub open spec fn verdict_text(v: Verdict) -> Seq<char> {
    match v {
        Verdict::Accepted => seq!['a', 'c', 'c', 'e', 'p', 't', 'e', 'd'],
        Verdict::Rejected => seq!['r', 'e', 'j', 'e', 'c', 't', 'e', 'd'],
    }
}

impl Verdict {
    /// `"accepted"` or `"rejected"`.
    pub fn to_string(&self) -> (s: String)
        ensures
            s@ == verdict_text(*self),
    {
        match self {
            Verdict::Accepted => {
                proof {
                    reveal_strlit("accepted");
                }
                let s = String::from_str("accepted");
                assert(s@ =~= verdict_text(*self));
                s
            },
            Verdict::Rejected => {
                proof {
                    reveal_strlit("rejected");
                }
                let s = String::from_str("rejected");
                assert(s@ =~= verdict_text(*self));
                s
            },
        }
    }
}

} // verus!
