//! The set of content IDs a worker already knows, for cross-round deduplication.

use vstd::prelude::*;
use vstd::string::StringSliceAdditionalSpecFns;

use crate::types::{cid_from_hex_spec, GraphCid};

verus! {

/// A set of known content IDs, kept as a list without repeats.
pub struct KnownCids {
    inner: Vec<GraphCid>,
}

/// The byte strings of a list of content IDs.
pub open spec fn cid_keys(s: Seq<GraphCid>) -> Seq<Seq<u8>> {
    s.map_values(|c: GraphCid| c.0@)
}

/// The content IDs that the hex strings in `hexes` parse to.
pub open spec fn parsed_cids(hexes: Seq<String>) -> Set<Seq<u8>> {
    Set::new(
        |b: Seq<u8>|
            exists|i: int|
                0 <= i < hexes.len() && cid_from_hex_spec(vstd::utf8::encode_utf8(#[trigger] hexes[i]@))
                    == Ok::<Seq<u8>, crate::types::HexError>(b),
    )
}

/// The content ID that `hex` parses to, as a set of at most one element.
pub open spec fn parsed_cid(hex: Seq<char>) -> Set<Seq<u8>> {
    match cid_from_hex_spec(vstd::utf8::encode_utf8(hex)) {
        Ok(b) => set![b],
        Err(_) => Set::empty(),
    }
}

impl View for KnownCids {
    type V = Set<Seq<u8>>;

    closed spec fn view(&self) -> Set<Seq<u8>> {
        cid_keys(self.inner@).to_set()
    }
}

impl KnownCids {
    #[verifier::type_invariant]
    spec fn no_repeats(self) -> bool {
        cid_keys(self.inner@).no_duplicates()
    }

    /// An empty set.
    pub fn new() -> (s: Self)
        ensures
            s@ == Set::<Seq<u8>>::empty(),
    {
        let s = KnownCids { inner: Vec::new() };
        assert(cid_keys(s.inner@).to_set() =~= Set::<Seq<u8>>::empty());
        s
    }

    /// Whether `cid` is known.
    pub fn contains(&self, cid: &GraphCid) -> (b: bool)
        ensures
            b == self@.contains(cid.0@),
    {
        let mut i: usize = 0;
        while i < self.inner.len()
            invariant
                i <= self.inner@.len(),
                forall|j: int| 0 <= j < i ==> self.inner@[j].0@ != cid.0@,
            decreases self.inner@.len() - i,
        {
            if self.inner[i].same(cid) {
                assert(cid_keys(self.inner@)[i as int] == cid.0@);
                return true;
            }
            i = i + 1;
        }
        proof {
            if cid_keys(self.inner@).to_set().contains(cid.0@) {
                let j = choose|j: int|
                    0 <= j < cid_keys(self.inner@).len() && cid_keys(self.inner@)[j] == cid.0@;
                assert(self.inner@[j].0@ == cid.0@);
            }
        }
        false
    }

    /// The set of known content IDs is finite.
    pub proof fn lemma_finite(&self)
        ensures
            self@.finite(),
    {
        vstd::seq_lib::seq_to_set_is_finite(cid_keys(self.inner@));
    }

    /// Adds `cid` to the set: it grows by one exactly when `cid` was not known.
    pub fn insert(&mut self, cid: GraphCid)
        ensures
            final(self)@ == old(self)@.insert(cid.0@),
            final(self)@.finite(),
            final(self)@.len() == old(self)@.len() + if old(self)@.contains(cid.0@) {
                0int
            } else {
                1int
            },
    {
        proof {
            old(self).lemma_finite();
        }
        if self.contains(&cid) {
            assert(old(self)@.insert(cid.0@) =~= old(self)@);
            return;
        }
        proof {
            use_type_invariant(&*self);
        }
        let ghost keys = cid_keys(self.inner@);
        let mut grown = self.inner.clone();
        assert(grown@ =~= self.inner@);
        grown.push(cid);
        proof {
            assert(cid_keys(grown@) =~= keys.push(cid.0@));
            keys.lemma_push_to_set_commute(cid.0@);
            assert forall|i: int, j: int|
                0 <= i < keys.len() + 1 && 0 <= j < keys.len() + 1 && i != j implies cid_keys(
                grown@,
            )[i] != cid_keys(grown@)[j] by {
                if i == keys.len() as int {
                    assert(keys.to_set().contains(keys[j]));
                } else if j == keys.len() as int {
                    assert(keys.to_set().contains(keys[i]));
                }
            }
        }
        self.inner = grown;
        proof {
            self.lemma_finite();
        }
    }

    /// Adds the content ID that `hex` parses to, if it parses; the set
    /// grows by one exactly when that content ID was not known.
    pub fn insert_hex(&mut self, hex: &str)
        ensures
            final(self)@ == old(self)@.union(parsed_cid(hex@)),
            final(self)@.finite(),
            final(self)@.len() == old(self)@.len() + match cid_from_hex_spec(vstd::utf8::encode_utf8(hex@)) {
                Ok(b) => if old(self)@.contains(b) {
                    0int
                } else {
                    1int
                },
                Err(_) => 0int,
            },
    {
        proof {
            old(self).lemma_finite();
        }
        match GraphCid::from_hex(hex) {
            Ok(cid) => {
                self.insert(cid);
                assert(final(self)@ =~= old(self)@.union(parsed_cid(hex@)));
            },
            Err(_) => {
                assert(old(self)@.union(parsed_cid(hex@)) =~= old(self)@);
            },
        }
    }

    /// Adds every content ID among `cids` that parses; the others are skipped.
    pub fn add_from_hex(&mut self, cids: &[String])
        ensures
            final(self)@ == old(self)@.union(parsed_cids(cids@)),
            final(self)@.finite(),
    {
        let mut i: usize = 0;
        while i < cids.len()
            invariant
                i <= cids@.len(),
                self@ == old(self)@.union(parsed_cids(cids@.take(i as int))),
            decreases cids@.len() - i,
        {
            let hex: &str = cids[i].as_str();
            self.insert_hex(hex);
            proof {
                let t = cids@.take(i + 1);
                assert(t.take(i as int) =~= cids@.take(i as int));
                assert(parsed_cids(t) =~= parsed_cids(cids@.take(i as int)).union(parsed_cid(cids@[i as int]@))) by {
                    assert(t[i as int] == cids@[i as int]);
                    assert forall|b: Seq<u8>| parsed_cids(t).contains(b) implies parsed_cids(
                        cids@.take(i as int),
                    ).union(parsed_cid(cids@[i as int]@)).contains(b) by {
                        let j = choose|j: int|
                            0 <= j < t.len() && cid_from_hex_spec(vstd::utf8::encode_utf8(#[trigger] t[j]@))
                                == Ok::<Seq<u8>, crate::types::HexError>(b);
                        if j < i {
                            assert(cids@.take(i as int)[j] == t[j]);
                        }
                    }
                    assert forall|b: Seq<u8>| parsed_cids(cids@.take(i as int)).contains(b) implies parsed_cids(
                        t,
                    ).contains(b) by {
                        let j = choose|j: int|
                            0 <= j < i && cid_from_hex_spec(vstd::utf8::encode_utf8(#[trigger] cids@.take(i as int)[j]@))
                                == Ok::<Seq<u8>, crate::types::HexError>(b);
                        assert(t[j] == cids@.take(i as int)[j]);
                    }
                    assert forall|b: Seq<u8>| parsed_cid(cids@[i as int]@).contains(b) implies parsed_cids(
                        t,
                    ).contains(b) by {
                        assert(cid_from_hex_spec(vstd::utf8::encode_utf8(t[i as int]@)) == Ok::<Seq<u8>, crate::types::HexError>(b));
                    }
                }
                assert(self@ =~= old(self)@.union(parsed_cids(t)));
            }
            i = i + 1;
        }
        assert(cids@.take(cids@.len() as int) =~= cids@);
        proof {
            self.lemma_finite();
        }
    }

    /// Number of known content IDs.
    pub fn len(&self) -> (n: usize)
        ensures
            self@.finite(),
            n == self@.len(),
    {
        proof {
            self.lemma_finite();
        }
        proof {
            use_type_invariant(self);
            cid_keys(self.inner@).unique_seq_to_set();
        }
        self.inner.len()
    }

    /// Whether no content ID is known.
    pub fn is_empty(&self) -> (b: bool)
        ensures
            b == (self@.len() == 0),
    {
        self.len() == 0
    }

    /// At most `max` of the known content IDs (all of them when there are
    /// no more than `max`).
    pub fn snapshot_trimmed(&self, max: usize) -> (s: KnownCids)
        ensures
            s@.subset_of(self@),
            self@.len() <= max ==> s@ == self@,
            s@.len() == if self@.len() <= max {
                self@.len()
            } else {
                max as nat
            },
    {
        proof {
            use_type_invariant(self);
            cid_keys(self.inner@).unique_seq_to_set();
        }
        let take = if self.inner.len() <= max {
            self.inner.len()
        } else {
            max
        };
        let mut inner: Vec<GraphCid> = Vec::new();
        let mut i: usize = 0;
        while i < take
            invariant
                take <= self.inner@.len(),
                cid_keys(self.inner@).no_duplicates(),
                i <= take,
                inner@ == self.inner@.take(i as int),
            decreases take - i,
        {
            inner.push(self.inner[i]);
            assert(inner@ =~= self.inner@.take(i + 1));
            i = i + 1;
        }
        proof {
            assert(cid_keys(inner@) =~= cid_keys(self.inner@).take(take as int));
            assert(cid_keys(inner@).no_duplicates());
            cid_keys(inner@).unique_seq_to_set();
            if take == self.inner@.len() {
                assert(inner@ =~= self.inner@);
            }
            assert forall|b: Seq<u8>| cid_keys(inner@).to_set().contains(b) implies cid_keys(
                self.inner@,
            ).to_set().contains(b) by {
                let j = choose|j: int| 0 <= j < cid_keys(inner@).len() && cid_keys(inner@)[j] == b;
                assert(cid_keys(self.inner@)[j] == b);
            }
        }
        KnownCids { inner }
    }

    /// Forgets every content ID.
    pub fn clear(&mut self)
        ensures
            final(self)@ == Set::<Seq<u8>>::empty(),
    {
        self.inner = Vec::new();
        assert(cid_keys(self.inner@).to_set() =~= Set::<Seq<u8>>::empty());
    }
}

impl Default for KnownCids {
    /// An empty set.
    fn default() -> (s: Self)
        ensures
            s@ == Set::<Seq<u8>>::empty(),
    {
        KnownCids::new()
    }
}

impl Clone for KnownCids {
    /// A copy holding the same content IDs.
    fn clone(&self) -> (s: Self)
        ensures
            s@ == self@,
    {
        proof {
            use_type_invariant(self);
            cid_keys(self.inner@).unique_seq_to_set();
        }
        self.snapshot_trimmed(self.inner.len())
    }
}

} // verus!
