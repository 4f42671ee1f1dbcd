//! Three-tier lexicographic graph scoring for discovery ranking.
//!
//! Tier 1, lowest wins: `(max(ω, α), min(ω, α))`.
//! Tier 2, lowest wins: `(max(C_ω, C_α), min(C_ω, C_α))`, the numbers of
//! maximum cliques and maximum independent sets.
//! Tier 3, highest wins: `|Aut(G)|`, carried as the bit pattern of the
//! `f64` that holds it and compared as `f64::total_cmp` compares.

use vstd::prelude::*;

use crate::clique::{
    count_max_cliques, is_clique_number, is_independence_number, k_cliques, k_independent_sets,
    lemma_complement_cliques,
};
use crate::graph::AdjacencyMatrix;

verus! {

/// Full score for a discovered graph.
#[derive(Clone, Copy, Debug)]
pub struct GraphScore {
    /// Clique number ω(G).
    pub omega: u32,
    /// Independence number α(G).
    pub alpha: u32,
    /// Number of maximum cliques of G.
    pub c_omega: u64,
    /// Number of maximum independent sets of G.
    pub c_alpha: u64,
    /// IEEE-754 bit pattern of the automorphism group order |Aut(G)|.
    pub aut_order_bits: u64,
}

/// The integer by which `f64::total_cmp` orders the float with bit pattern `bits`.
pub open spec fn total_order_key(bits: u64) -> int {
    if bits < 0x8000_0000_0000_0000 {
        bits as int
    } else {
        0x7FFF_FFFF_FFFF_FFFF - bits
    }
}

/// Tier 1 of a score with clique number `omega` and independence number `alpha`.
pub open spec fn tier1_of(omega: u32, alpha: u32) -> (u32, u32) {
    if omega >= alpha {
        (omega, alpha)
    } else {
        (alpha, omega)
    }
}

/// Tier 2 of a score with maximum-clique and maximum-independent-set counts.
pub open spec fn tier2_of(c_omega: u64, c_alpha: u64) -> (u64, u64) {
    if c_omega >= c_alpha {
        (c_omega, c_alpha)
    } else {
        (c_alpha, c_omega)
    }
}

/// Lexicographic `<` on pairs.
pub open spec fn pair_lt(a: (int, int), b: (int, int)) -> bool {
    a.0 < b.0 || (a.0 == b.0 && a.1 < b.1)
}

impl GraphScore {
    /// Tier 1 as a pair of integers: `(max, min)` of `(omega, alpha)`.
    pub open spec fn t1(self) -> (int, int) {
        (tier1_of(self.omega, self.alpha).0 as int, tier1_of(self.omega, self.alpha).1 as int)
    }

    /// Tier 2 as a pair of integers: `(max, min)` of the maximum-clique counts.
    pub open spec fn t2(self) -> (int, int) {
        (tier2_of(self.c_omega, self.c_alpha).0 as int, tier2_of(self.c_omega, self.c_alpha).1 as int)
    }

    /// Tier 3 key: larger group order gives a larger key.
    pub open spec fn t3(self) -> int {
        total_order_key(self.aut_order_bits)
    }

    /// `self` ranks strictly better (earlier) than `other`.
    pub open spec fn better_than(self, other: GraphScore) -> bool {
        ||| pair_lt(self.t1(), other.t1())
        ||| (self.t1() == other.t1() && pair_lt(self.t2(), other.t2()))
        ||| (self.t1() == other.t1() && self.t2() == other.t2() && self.t3() > other.t3())
    }

    /// `self` and `other` rank equal on every tier.
    pub open spec fn ties(self, other: GraphScore) -> bool {
        self.t1() == other.t1() && self.t2() == other.t2() && self.t3() == other.t3()
    }

    /// Builds a score and its precomputed tiers.
    pub fn new(omega: u32, alpha: u32, c_omega: u64, c_alpha: u64, aut_order_bits: u64) -> (s: Self)
        ensures
            s.omega == omega,
            s.alpha == alpha,
            s.c_omega == c_omega,
            s.c_alpha == c_alpha,
            s.aut_order_bits == aut_order_bits,
    {
        GraphScore { omega, alpha, c_omega, c_alpha, aut_order_bits }
    }

    /// Tier 1: `(max(ω, α), min(ω, α))`.
    pub fn tier1(&self) -> (t: (u32, u32))
        ensures
            t == tier1_of(self.omega, self.alpha),
    {
        if self.omega >= self.alpha {
            (self.omega, self.alpha)
        } else {
            (self.alpha, self.omega)
        }
    }

    /// Tier 2: `(max(C_ω, C_α), min(C_ω, C_α))`.
    pub fn tier2(&self) -> (t: (u64, u64))
        ensures
            t == tier2_of(self.c_omega, self.c_alpha),
    {
        if self.c_omega >= self.c_alpha {
            (self.c_omega, self.c_alpha)
        } else {
            (self.c_alpha, self.c_omega)
        }
    }
}

/// The key by which `f64::total_cmp` orders the float with bit pattern `bits`.
pub fn aut_order_key(bits: u64) -> (key: i64)
    ensures
        key == total_order_key(bits),
{
    if bits < 0x8000_0000_0000_0000 {
        bits as i64
    } else {
        let low = (bits - 0x8000_0000_0000_0000) as i64;
        -low - 1
    }
}

/// Compares two scores: `Less` when `a` ranks better than `b`.
pub fn compare_scores(a: &GraphScore, b: &GraphScore) -> (o: core::cmp::Ordering)
    ensures
        (o == core::cmp::Ordering::Less) == a.better_than(*b),
        (o == core::cmp::Ordering::Equal) == a.ties(*b),
        (o == core::cmp::Ordering::Greater) == b.better_than(*a),
{
    let (a1, a2) = a.tier1();
    let (b1, b2) = b.tier1();
    let (a3, a4) = a.tier2();
    let (b3, b4) = b.tier2();
    if a1 != b1 {
        return if a1 < b1 {
            core::cmp::Ordering::Less
        } else {
            core::cmp::Ordering::Greater
        };
    }
    if a2 != b2 {
        return if a2 < b2 {
            core::cmp::Ordering::Less
        } else {
            core::cmp::Ordering::Greater
        };
    }
    if a3 != b3 {
        return if a3 < b3 {
            core::cmp::Ordering::Less
        } else {
            core::cmp::Ordering::Greater
        };
    }
    if a4 != b4 {
        return if a4 < b4 {
            core::cmp::Ordering::Less
        } else {
            core::cmp::Ordering::Greater
        };
    }
    let ka = aut_order_key(a.aut_order_bits);
    let kb = aut_order_key(b.aut_order_bits);
    if ka > kb {
        core::cmp::Ordering::Less
    } else if ka < kb {
        core::cmp::Ordering::Greater
    } else {
        core::cmp::Ordering::Equal
    }
}

/// Whether `a` and `b` rank equal on every tier.
pub fn ranks_equal(a: &GraphScore, b: &GraphScore) -> (r: bool)
    ensures
        r == a.ties(*b),
{
    match compare_scores(a, b) {
        core::cmp::Ordering::Equal => true,
        _ => false,
    }
}

/// Whether `a` ranks strictly better than `b`.
pub fn ranks_better(a: &GraphScore, b: &GraphScore) -> (r: bool)
    ensures
        r == a.better_than(*b),
{
    match compare_scores(a, b) {
        core::cmp::Ordering::Less => true,
        _ => false,
    }
}

impl GraphScore {
    /// Three-tier comparison: `Less` means `self` ranks better.
    pub fn cmp(&self, other: &GraphScore) -> (o: core::cmp::Ordering)
        ensures
            (o == core::cmp::Ordering::Less) == self.better_than(*other),
            (o == core::cmp::Ordering::Equal) == self.ties(*other),
            (o == core::cmp::Ordering::Greater) == other.better_than(*self),
    {
        compare_scores(self, other)
    }
}

/// The outcome of comparing `a` with `b` as a spec value.
pub open spec fn score_order(a: GraphScore, b: GraphScore) -> core::cmp::Ordering {
    if a.better_than(b) {
        core::cmp::Ordering::Less
    } else if b.better_than(a) {
        core::cmp::Ordering::Greater
    } else {
        core::cmp::Ordering::Equal
    }
}

impl PartialEq for GraphScore {
    fn eq(&self, other: &Self) -> (r: bool) {
        match compare_scores(self, other) {
            core::cmp::Ordering::Equal => true,
            _ => false,
        }
    }
}

impl vstd::std_specs::cmp::PartialEqSpecImpl for GraphScore {
    open spec fn obeys_eq_spec() -> bool {
        true
    }

    open spec fn eq_spec(&self, other: &GraphScore) -> bool {
        self.ties(*other)
    }
}

impl Eq for GraphScore {

}

impl PartialOrd for GraphScore {
    fn partial_cmp(&self, other: &Self) -> (r: Option<core::cmp::Ordering>) {
        Some(compare_scores(self, other))
    }
}

impl vstd::std_specs::cmp::PartialOrdSpecImpl for GraphScore {
    open spec fn obeys_partial_cmp_spec() -> bool {
        true
    }

    open spec fn partial_cmp_spec(&self, other: &GraphScore) -> Option<core::cmp::Ordering> {
        Some(score_order(*self, *other))
    }
}

/// Scores a graph from its clique structure and from `aut_order_bits`, the
/// bit pattern of its automorphism group order computed elsewhere.
pub fn compute_score(graph: &AdjacencyMatrix, aut_order_bits: u64) -> (s: GraphScore)
    requires
        graph.wf(),
        graph.order() < u32::MAX,
        forall|m: nat| is_clique_number(graph, m) ==> #[trigger] k_cliques(graph, m).len() <= u64::MAX,
        forall|m: nat|
            is_independence_number(graph, m) ==> #[trigger] k_independent_sets(graph, m).len()
                <= u64::MAX,
    ensures
        is_clique_number(graph, s.omega as nat),
        s.c_omega == k_cliques(graph, s.omega as nat).len(),
        is_independence_number(graph, s.alpha as nat),
        s.c_alpha == k_independent_sets(graph, s.alpha as nat).len(),
        s.aut_order_bits == aut_order_bits,
{
    let (omega, c_omega) = count_max_cliques(graph);
    let comp = graph.complement();
    proof {
        lemma_complement_cliques(&comp, graph);
    }
    let (alpha, c_alpha) = count_max_cliques(&comp);
    GraphScore::new(omega, alpha, c_omega, c_alpha, aut_order_bits)
}

/// Any two scores compare one way only: exactly one of "better", "tied",
/// "worse" holds.
pub proof fn lemma_score_trichotomy(a: GraphScore, b: GraphScore)
    ensures
        a.better_than(b) || a.ties(b) || b.better_than(a),
        !(a.better_than(b) && a.ties(b)),
        !(a.better_than(b) && b.better_than(a)),
        !(a.ties(b) && b.better_than(a)),
{
}

/// "Ranks better" is transitive.
pub proof fn lemma_better_transitive(a: GraphScore, b: GraphScore, c: GraphScore)
    requires
        a.better_than(b),
        b.better_than(c),
    ensures
        a.better_than(c),
{
}

/// Ties form an equivalence, and tied scores rank alike against any third.
pub proof fn lemma_ties_equivalence(a: GraphScore, b: GraphScore, c: GraphScore)
    ensures
        a.ties(a),
        a.ties(b) ==> b.ties(a),
        a.ties(b) && b.ties(c) ==> a.ties(c),
        a.ties(b) ==> (a.better_than(c) == b.better_than(c) && c.better_than(a) == c.better_than(b)),
{
}

/// A lower tier 1 wins whatever the other tiers say.
pub proof fn lemma_tier1_dominates(a: GraphScore, b: GraphScore)
    requires
        pair_lt(a.t1(), b.t1()),
    ensures
        a.better_than(b),
{
}

/// With equal tier 1, a lower tier 2 wins whatever the group orders.
pub proof fn lemma_tier2_breaks_tie(a: GraphScore, b: GraphScore)
    requires
        a.t1() == b.t1(),
        pair_lt(a.t2(), b.t2()),
    ensures
        a.better_than(b),
{
}

/// With equal tiers 1 and 2, the larger automorphism group order wins.
pub proof fn lemma_tier3_breaks_tie(a: GraphScore, b: GraphScore)
    requires
        a.t1() == b.t1(),
        a.t2() == b.t2(),
        a.t3() > b.t3(),
    ensures
        a.better_than(b),
{
}

/// Swapping the roles of cliques and independent sets (ω with α, C_ω with
/// C_α) does not change a score's rank.
pub proof fn lemma_swap_symmetry(omega: u32, alpha: u32, c_omega: u64, c_alpha: u64, aut_order_bits: u64)
    ensures
        (GraphScore { omega, alpha, c_omega, c_alpha, aut_order_bits }).ties(
            GraphScore { omega: alpha, alpha: omega, c_omega: c_alpha, c_alpha: c_omega, aut_order_bits },
        ),
{
}

/// For non-negative group orders, a larger float has a larger key: the
/// key of a non-negative float is its bit pattern.
pub proof fn lemma_nonnegative_key(bits: u64)
    requires
        bits < 0x8000_0000_0000_0000,
    ensures
        total_order_key(bits) == bits,
{
}

} // verus!
