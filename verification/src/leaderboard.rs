//! Leaderboard admission decisions. Scores are stored as byte strings that
//! order lexicographically, lower first; the store runs these decisions
//! between its database reads and writes.

use vstd::prelude::*;

verus! {

/// Lexicographic `<` on byte strings (a proper prefix comes first).
pub open spec fn bytes_lt(a: Seq<u8>, b: Seq<u8>) -> bool
    decreases a.len(),
{
    if a.len() == 0 {
        b.len() > 0
    } else if b.len() == 0 {
        false
    } else if a[0] != b[0] {
        a[0] < b[0]
    } else {
        bytes_lt(a.drop_first(), b.drop_first())
    }
}

/// `a` orders strictly before `b`: at the first position where they differ
/// `a` has the smaller byte, or `a` is a proper prefix of `b`.
pub open spec fn orders_before(a: Seq<u8>, b: Seq<u8>) -> bool {
    exists|i: int|
        0 <= i <= a.len() && i <= b.len() && #[trigger] a.take(i) == b.take(i) && (
        (i < a.len() && i < b.len() && a[i] < b[i]) || (i == a.len() && i < b.len()))
}

/// The byte order is the lexicographic order: `bytes_lt` holds exactly when
/// the first difference favours `a`, or `a` is a proper prefix of `b`.
pub proof fn lemma_bytes_lt_is_lexicographic(a: Seq<u8>, b: Seq<u8>)
    ensures
        bytes_lt(a, b) <==> orders_before(a, b),
    decreases a.len(),
{
    if a.len() == 0 {
        if b.len() > 0 {
            assert(a.take(0) =~= b.take(0));
        }
    } else if b.len() == 0 {
        if orders_before(a, b) {
            let i = choose|i: int|
                0 <= i <= a.len() && i <= b.len() && #[trigger] a.take(i) == b.take(i) && (
                (i < a.len() && i < b.len() && a[i] < b[i]) || (i == a.len() && i < b.len()));
        }
    } else if a[0] != b[0] {
        assert(a.take(0) =~= b.take(0));
        if orders_before(a, b) {
            let i = choose|i: int|
                0 <= i <= a.len() && i <= b.len() && #[trigger] a.take(i) == b.take(i) && (
                (i < a.len() && i < b.len() && a[i] < b[i]) || (i == a.len() && i < b.len()));
            if i > 0 {
                assert(a.take(i)[0] == b.take(i)[0]);
            }
        }
    } else {
        let a1 = a.drop_first();
        let b1 = b.drop_first();
        lemma_bytes_lt_is_lexicographic(a1, b1);
        if orders_before(a1, b1) {
            let i = choose|i: int|
                0 <= i <= a1.len() && i <= b1.len() && #[trigger] a1.take(i) == b1.take(i) && (
                (i < a1.len() && i < b1.len() && a1[i] < b1[i]) || (i == a1.len() && i < b1.len()));
            assert(a.take(i + 1) =~= seq![a[0]] + a1.take(i));
            assert(b.take(i + 1) =~= seq![b[0]] + b1.take(i));
            assert(a.take(i + 1) == b.take(i + 1));
            if i < a1.len() && i < b1.len() {
                assert(a[i + 1] == a1[i] && b[i + 1] == b1[i]);
            }
        }
        if orders_before(a, b) {
            let i = choose|i: int|
                0 <= i <= a.len() && i <= b.len() && #[trigger] a.take(i) == b.take(i) && (
                (i < a.len() && i < b.len() && a[i] < b[i]) || (i == a.len() && i < b.len()));
            if i == 0 {
                assert(a[0] < b[0]);
            } else {
                assert(a1.take(i - 1) =~= a.take(i).drop_first());
                assert(b1.take(i - 1) =~= b.take(i).drop_first());
                if i < a.len() && i < b.len() {
                    assert(a1[i - 1] == a[i] && b1[i - 1] == b[i]);
                }
                assert(orders_before(a1, b1));
            }
        }
    }
}

/// Whether `a` orders strictly before `b`.
pub fn score_bytes_lt(a: &[u8], b: &[u8]) -> (r: bool)
    ensures
        r == bytes_lt(a@, b@),
        r == orders_before(a@, b@),
{
    proof {
        lemma_bytes_lt_is_lexicographic(a@, b@);
    }
    let mut i: usize = 0;
    assert(a@.skip(0) =~= a@ && b@.skip(0) =~= b@);
    while i < a.len() && i < b.len()
        invariant
            i <= a@.len(),
            i <= b@.len(),
            a@.take(i as int) == b@.take(i as int),
            bytes_lt(a@, b@) == bytes_lt(a@.skip(i as int), b@.skip(i as int)),
            bytes_lt(a@, b@) == orders_before(a@, b@),
        decreases a@.len() - i,
    {
        proof {
            assert(a@.skip(i as int)[0] == a@[i as int]);
            assert(b@.skip(i as int)[0] == b@[i as int]);
            assert(a@.skip(i as int).drop_first() =~= a@.skip(i + 1));
            assert(b@.skip(i as int).drop_first() =~= b@.skip(i + 1));
        }
        if a[i] != b[i] {
            return a[i] < b[i];
        }
        assert(a@.take(i + 1) =~= a@.take(i as int).push(a@[i as int]));
        assert(b@.take(i + 1) =~= b@.take(i as int).push(b@[i as int]));
        i = i + 1;
    }
    i < b.len()
}

/// What to do with a graph offered to a leaderboard.
#[derive(Clone, Copy, Debug, PartialEq, Eq, Structural)]
pub enum AdmissionStep {
    /// Leave the leaderboard as it is; the graph is not admitted.
    Reject,
    /// Admit the graph, first evicting the worst entry if `evict_worst`.
    Admit { evict_worst: bool },
}

/// The decision on a full board whose worst score is `worst`.
pub open spec fn admission_on_full_board(worst: Option<&[u8]>, score: Seq<u8>) -> AdmissionStep {
    match worst {
        None => AdmissionStep::Admit { evict_worst: false },
        Some(w) => if bytes_lt(score, w@) {
            AdmissionStep::Admit { evict_worst: true }
        } else {
            AdmissionStep::Reject
        },
    }
}

/// The decision for a graph with `score` offered to a board of `count`
/// entries of at most `capacity`.
pub open spec fn admission_decision(
    already_listed: bool,
    count: i64,
    capacity: i32,
    worst: Option<&[u8]>,
    score: Seq<u8>,
) -> AdmissionStep {
    if already_listed {
        AdmissionStep::Reject
    } else if count < capacity {
        AdmissionStep::Admit { evict_worst: false }
    } else {
        admission_on_full_board(worst, score)
    }
}

/// Decides whether a graph with `score` enters a leaderboard that holds
/// `count` entries of at most `capacity`, whose worst score (when it is full
/// and not empty) is `worst`: a graph already listed is not admitted again;
/// on a full board it must order strictly before the worst entry, which it
/// then replaces.
pub fn admission_step(
    already_listed: bool,
    count: i64,
    capacity: i32,
    worst: Option<&[u8]>,
    score: &[u8],
) -> (step: AdmissionStep)
    ensures
        step == admission_decision(already_listed, count, capacity, worst, score@),
        already_listed ==> step == AdmissionStep::Reject,
        !already_listed && count < capacity ==> step == (AdmissionStep::Admit { evict_worst: false }),
        !already_listed && count >= capacity && worst is Some ==> (step == (AdmissionStep::Admit {
            evict_worst: true,
        }) <==> orders_before(score@, worst->0@)) && (step == AdmissionStep::Reject <==> !orders_before(
            score@,
            worst->0@,
        )),
{
    proof {
        if worst is Some {
            lemma_bytes_lt_is_lexicographic(score@, worst->0@);
        }
    }
    if already_listed {
        return AdmissionStep::Reject;
    }
    if count >= capacity as i64 {
        match worst {
            Some(w) => {
                if score_bytes_lt(score, w) {
                    AdmissionStep::Admit { evict_worst: true }
                } else {
                    AdmissionStep::Reject
                }
            },
            None => AdmissionStep::Admit { evict_worst: false },
        }
    } else {
        AdmissionStep::Admit { evict_worst: false }
    }
}

/// The rank of a newly admitted entry: one more than the number of entries
/// with a strictly better score, stored as `i32` (wrapping as `as` does).
pub fn rank_after(better_count: i64) -> (rank: i32)
    requires
        better_count < i64::MAX,
    ensures
        rank == (better_count + 1) as i32,
{
    (better_count + 1) as i32
}

/// On a full board, a graph not yet listed is admitted, evicting the worst
/// entry, exactly when its score bytes order lexicographically before the
/// worst entry's; otherwise it is rejected.
pub proof fn lemma_full_board_admits_lexicographically_better(
    count: i64,
    capacity: i32,
    worst: &[u8],
    score: Seq<u8>,
)
    requires
        count >= capacity,
    ensures
        admission_decision(false, count, capacity, Some(worst), score) == (AdmissionStep::Admit {
            evict_worst: true,
        }) <==> orders_before(score, worst@),
        admission_decision(false, count, capacity, Some(worst), score) == AdmissionStep::Reject
            <==> !orders_before(score, worst@),
{
    lemma_bytes_lt_is_lexicographic(score, worst@);
}

/// Number of entries after carrying out an admission step on a board of `count`.
pub open spec fn count_after(count: int, step: AdmissionStep) -> int {
    match step {
        AdmissionStep::Reject => count,
        AdmissionStep::Admit { evict_worst } => if evict_worst {
            count
        } else {
            count + 1
        },
    }
}

/// A leaderboard never grows past its capacity: on a board within capacity
/// whose worst entry is known whenever it has entries, the decision for any
/// graph leaves it within capacity.
pub proof fn lemma_admission_keeps_capacity(
    already_listed: bool,
    count: i64,
    capacity: i32,
    worst: Option<&[u8]>,
    score: Seq<u8>,
)
    requires
        1 <= capacity,
        0 <= count <= capacity,
        count > 0 ==> worst is Some,
    ensures
        0 <= count_after(count as int, admission_decision(already_listed, count, capacity, worst, score))
            <= capacity,
{
}

} // verus!
