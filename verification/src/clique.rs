//! Clique search and counting by backtracking over increasing vertex lists.

use vstd::prelude::*;
use vstd::set_lib::{lemma_len_subset, lemma_set_disjoint_lens};

use crate::graph::AdjacencyMatrix;

verus! {

/// `c` lists the vertices of a clique of `g` in strictly increasing order.
pub open spec fn is_clique(g: &AdjacencyMatrix, c: Seq<u32>) -> bool {
    &&& forall|i: int| 0 <= i < c.len() ==> (#[trigger] c[i]) < g.order()
    &&& forall|i: int, j: int| #![trigger c[i], c[j]] 0 <= i < j < c.len() ==> c[i] < c[j]
    &&& forall|i: int, j: int|
        #![trigger c[i], c[j]]
        0 <= i < j < c.len() ==> g.adjacent(c[i] as int, c[j] as int)
}

/// `c` is a clique of `g` with exactly `k` vertices.
pub open spec fn is_k_clique(g: &AdjacencyMatrix, c: Seq<u32>, k: nat) -> bool {
    is_clique(g, c) && c.len() == k
}

/// All cliques of `g` with exactly `k` vertices, each as its increasing vertex list.
pub open spec fn k_cliques(g: &AdjacencyMatrix, k: nat) -> Set<Seq<u32>> {
    Set::new(|c: Seq<u32>| is_k_clique(g, c, k))
}

/// `g` has a clique with exactly `k` vertices.
pub open spec fn has_clique(g: &AdjacencyMatrix, k: nat) -> bool {
    exists|c: Seq<u32>| #[trigger] is_k_clique(g, c, k)
}

/// `a` comes strictly before `b` in lexicographic order.
pub open spec fn lex_lt(a: Seq<u32>, b: Seq<u32>) -> bool {
    exists|i: int|
        #![trigger a[i], b[i]]
        0 <= i < a.len() && i < b.len() && a.take(i) =~= b.take(i) && a[i] < b[i]
}

/// `w` is the lexicographically smallest `k`-clique of `g`.
pub open spec fn is_least_k_clique(g: &AdjacencyMatrix, w: Seq<u32>, k: nat) -> bool {
    &&& is_k_clique(g, w, k)
    &&& forall|c: Seq<u32>| #[trigger] is_k_clique(g, c, k) ==> c == w || lex_lt(w, c)
}

/// `c` begins with `p`.
spec fn extends(c: Seq<u32>, p: Seq<u32>) -> bool {
    p.len() <= c.len() && c.take(p.len() as int) =~= p
}

/// `c` begins with `p`, and its next vertex, if any, is at least `start`.
spec fn extends_from(c: Seq<u32>, p: Seq<u32>, start: int) -> bool {
    extends(c, p) && (c.len() > p.len() ==> c[p.len() as int] >= start)
}

/// The first vertex that may follow the increasing list `p`.
spec fn next_start(p: Seq<u32>) -> int {
    if p.len() == 0 {
        0
    } else {
        p.last() + 1
    }
}

/// A strictly increasing list whose entry `from` is at least `lo` grows by at
/// least one per position.
proof fn lemma_increasing_lower_bound(c: Seq<u32>, from: int, lo: int, i: int)
    requires
        forall|a: int, b: int| #![trigger c[a], c[b]] 0 <= a < b < c.len() ==> c[a] < c[b],
        0 <= from <= i < c.len(),
        c[from] >= lo,
    ensures
        c[i] >= lo + (i - from),
    decreases i - from,
{
    if i > from {
        lemma_increasing_lower_bound(c, from, lo, i - 1);
        assert(c[i - 1] < c[i]);
    }
}

/// A clique has at most as many vertices as the graph.
proof fn lemma_clique_len_bound(g: &AdjacencyMatrix, c: Seq<u32>)
    requires
        is_clique(g, c),
    ensures
        c.len() <= g.order(),
{
    if c.len() > 0 {
        lemma_increasing_lower_bound(c, 0, 0, c.len() - 1);
        assert(c[c.len() - 1] < g.order());
    }
}

/// No clique extends `p` from vertex `start` on when fewer than the missing
/// number of vertices remain from `start` on.
proof fn lemma_no_room(g: &AdjacencyMatrix, p: Seq<u32>, k: nat, c: Seq<u32>, start: int)
    requires
        is_clique(g, p),
        p.len() < k,
        g.order() - start < k - p.len(),
    ensures
        !(is_k_clique(g, c, k) && extends_from(c, p, start)),
{
    if !(is_k_clique(g, c, k) && extends_from(c, p, start)) {
        return;
    }
    let m = p.len() as int;
    lemma_increasing_lower_bound(c, m, start, k - 1);
    assert(c[k - 1] < g.order());
}

/// Whether `v` is adjacent to every vertex of `current`.
fn adjacent_to_all(adj: &AdjacencyMatrix, current: &Vec<u32>, v: u32) -> (b: bool)
    requires
        adj.wf(),
        forall|i: int| 0 <= i < current@.len() ==> (#[trigger] current@[i]) < adj.order(),
        v < adj.order(),
    ensures
        b == forall|i: int|
            0 <= i < current@.len() ==> #[trigger] adj.adjacent(current@[i] as int, v as int),
{
    let mut i: usize = 0;
    while i < current.len()
        invariant
            adj.wf(),
            forall|j: int| 0 <= j < current@.len() ==> (#[trigger] current@[j]) < adj.order(),
            v < adj.order(),
            i <= current@.len(),
            forall|j: int| 0 <= j < i ==> #[trigger] adj.adjacent(current@[j] as int, v as int),
        decreases current@.len() - i,
    {
        if !adj.edge(current[i], v) {
            return false;
        }
        i = i + 1;
    }
    true
}

/// Searches for the least `k`-clique that extends `current` with vertices
/// from `start` on; on success it is left in `current`, otherwise `current`
/// is unchanged.
fn backtrack(adj: &AdjacencyMatrix, current: &mut Vec<u32>, start: u32, k: u32) -> (found: bool)
    requires
        adj.wf(),
        is_clique(adj, old(current)@),
        old(current)@.len() <= k,
        next_start(old(current)@) <= start <= adj.order(),
    ensures
        found == exists|c: Seq<u32>|
            #[trigger] is_k_clique(adj, c, k as nat) && extends_from(c, old(current)@, start as int),
        found ==> is_k_clique(adj, final(current)@, k as nat) && extends_from(
            final(current)@,
            old(current)@,
            start as int,
        ),
        found ==> forall|c: Seq<u32>|
            #[trigger] is_k_clique(adj, c, k as nat) && extends_from(c, old(current)@, start as int)
                ==> c == final(current)@ || lex_lt(final(current)@, c),
        !found ==> final(current)@ == old(current)@,
    decreases k - old(current)@.len(),
{
    let ghost p = current@;
    let ghost m = p.len() as int;
    if current.len() as u32 == k {
        assert(is_k_clique(adj, p, k as nat) && extends_from(p, p, start as int));
        assert forall|c: Seq<u32>| #[trigger] is_k_clique(adj, c, k as nat) && extends_from(c, p, start as int)
            implies c == p || lex_lt(p, c) by {
            assert(c =~= c.take(m));
        }
        return true;
    }
    let remaining = k - current.len() as u32;
    let n = adj.n();
    if n - start < remaining {
        assert forall|c: Seq<u32>| !(#[trigger] is_k_clique(adj, c, k as nat) && extends_from(c, p, start as int)) by {
            lemma_no_room(adj, p, k as nat, c, start as int);
        }
        return false;
    }
    let mut v: u32 = start;
    while v < n
        invariant
            adj.wf(),
            is_clique(adj, p),
            m == p.len(),
            m < k,
            n == adj.order(),
            next_start(p) <= start,
            start <= v <= n,
            current@ == p,
            p == old(current)@,
            forall|c: Seq<u32>|
                #[trigger] is_k_clique(adj, c, k as nat) && extends_from(c, p, start as int) ==> c[m] >= v,
        decreases n - v,
    {
        let connected = adjacent_to_all(adj, current, v);
        if connected {
            current.push(v);
            let ghost q = current@;
            assert(q.take(m) =~= p);
            proof {
                lemma_push_clique(adj, p, v);
            }
            if backtrack(adj, current, v + 1, k) {
                let ghost w = current@;
                assert(extends_from(w, p, start as int)) by {
                    assert(w.take(m + 1) =~= q);
                    assert(w.take(m) =~= q.take(m));
                    assert(w.take(m + 1)[m] == w[m]);
                }
                assert forall|c: Seq<u32>| #[trigger] is_k_clique(adj, c, k as nat) && extends_from(c, p, start as int)
                    implies c == w || lex_lt(w, c) by {
                    if c[m] == v {
                        assert(c.take(m + 1) =~= q) by {
                            assert(c.take(m) =~= p);
                        }
                        if c.len() > m + 1 {
                            assert(c[m] < c[m + 1]);
                        }
                        assert(extends_from(c, q, v + 1));
                    } else {
                        assert(w.take(m + 1) =~= q);
                        assert(w.take(m + 1)[m] == w[m]);
                        assert(q[m] == v);
                        assert(w[m] == v);
                        assert(w.take(m) =~= c.take(m));
                    }
                }
                return true;
            }
            current.pop();
            assert(current@ =~= p);
            assert forall|c: Seq<u32>| #[trigger] is_k_clique(adj, c, k as nat) && extends_from(c, p, start as int)
                implies c[m] >= v + 1 by {
                if c[m] == v {
                    assert(c.take(m + 1) =~= q) by {
                        assert(c.take(m) =~= p);
                    }
                    if c.len() > m + 1 {
                        assert(c[m] < c[m + 1]);
                    }
                    assert(extends_from(c, q, v + 1));
                }
            }
        } else {
            assert forall|c: Seq<u32>| #[trigger] is_k_clique(adj, c, k as nat) && extends_from(c, p, start as int)
                implies c[m] >= v + 1 by {
                if c[m] == v {
                    let i = choose|i: int|
                        0 <= i < p.len() && !#[trigger] adj.adjacent(p[i] as int, v as int);
                    assert(c[i] == p[i]);
                    assert(adj.adjacent(c[i] as int, c[m] as int));
                }
            }
        }
        v = v + 1;
    }
    assert forall|c: Seq<u32>| !(#[trigger] is_k_clique(adj, c, k as nat) && extends_from(c, p, start as int)) by {
        if is_k_clique(adj, c, k as nat) && extends_from(c, p, start as int) {
            assert(c[m] < n);
        }
    }
    false
}

/// Finds the lexicographically smallest clique with exactly `k` vertices,
/// or `None` when the graph has no such clique.
pub fn find_clique_witness(adj: &AdjacencyMatrix, k: u32) -> (r: Option<Vec<u32>>)
    requires
        adj.wf(),
    ensures
        match r {
            Some(w) => is_least_k_clique(adj, w@, k as nat),
            None => !has_clique(adj, k as nat),
        },
{
    if k == 0 {
        let w: Vec<u32> = Vec::new();
        assert forall|c: Seq<u32>| #[trigger] is_k_clique(adj, c, 0) implies c == w@ || lex_lt(w@, c) by {
            assert(c =~= w@);
        }
        return Some(w);
    }
    let n = adj.n();
    if k == 1 && n > 0 {
        let mut w: Vec<u32> = Vec::new();
        w.push(0);
        assert forall|c: Seq<u32>| #[trigger] is_k_clique(adj, c, 1) implies c == w@ || lex_lt(w@, c) by {
            if c[0] == 0 {
                assert(c =~= w@);
            } else {
                assert(w@.take(0) =~= c.take(0));
            }
        }
        return Some(w);
    }
    if k > n {
        assert forall|c: Seq<u32>| !#[trigger] is_k_clique(adj, c, k as nat) by {
            if is_k_clique(adj, c, k as nat) {
                lemma_clique_len_bound(adj, c);
            }
        }
        return None;
    }
    let mut current: Vec<u32> = Vec::new();
    let ghost empty = current@;
    assert forall|c: Seq<u32>| #[trigger] is_k_clique(adj, c, k as nat) implies extends_from(c, empty, 0) by {
        assert(c.take(0) =~= empty);
    }
    if backtrack(adj, &mut current, 0, k) {
        Some(current)
    } else {
        None
    }
}

/// Appending a later vertex adjacent to every vertex of a clique gives a clique.
proof fn lemma_push_clique(g: &AdjacencyMatrix, p: Seq<u32>, v: u32)
    requires
        is_clique(g, p),
        next_start(p) <= v < g.order(),
        forall|i: int| 0 <= i < p.len() ==> #[trigger] g.adjacent(p[i] as int, v as int),
    ensures
        is_clique(g, p.push(v)),
{
    let q = p.push(v);
    let m = p.len() as int;
    assert forall|i: int, j: int| #![trigger q[i], q[j]] 0 <= i < j < q.len() implies q[i] < q[j]
        && g.adjacent(q[i] as int, q[j] as int) by {
        if j == m && i < m {
            assert(q[i] == p[i]);
            assert(p[i] <= p[m - 1]) by {
                if i < m - 1 {
                    assert(p[i] < p[m - 1]);
                }
            }
        }
    }
}

/// Every prefix of a clique is a clique.
proof fn lemma_clique_prefix(g: &AdjacencyMatrix, c: Seq<u32>, j: int)
    requires
        is_clique(g, c),
        0 <= j <= c.len(),
    ensures
        is_clique(g, c.take(j)),
{
    let t = c.take(j);
    assert forall|a: int, b: int| #![trigger t[a], t[b]] 0 <= a < b < t.len() implies t[a] < t[b]
        && g.adjacent(t[a] as int, t[b] as int) by {
        assert(t[a] == c[a] && t[b] == c[b]);
    }
}

/// The `k`-cliques that begin with `p`.
spec fn cliques_extending(g: &AdjacencyMatrix, p: Seq<u32>, k: nat) -> Set<Seq<u32>> {
    Set::new(|c: Seq<u32>| is_k_clique(g, c, k) && extends(c, p))
}

/// The `k`-cliques that begin with `p` and whose next vertex lies in `lo..hi`.
spec fn cliques_extending_between(
    g: &AdjacencyMatrix,
    p: Seq<u32>,
    k: nat,
    lo: int,
    hi: int,
) -> Set<Seq<u32>> {
    Set::new(
        |c: Seq<u32>|
            is_k_clique(g, c, k) && extends(c, p) && p.len() < c.len() && lo <= c[p.len() as int] < hi,
    )
}

/// The `k`-cliques that continue `p` with `v` are those extending `p.push(v)`.
proof fn lemma_slice(g: &AdjacencyMatrix, p: Seq<u32>, k: nat, v: u32)
    requires
        is_clique(g, p),
        p.len() < k,
    ensures
        is_clique(g, p.push(v)) ==> cliques_extending_between(g, p, k, v as int, v + 1)
            == cliques_extending(g, p.push(v), k),
        !is_clique(g, p.push(v)) ==> cliques_extending_between(g, p, k, v as int, v + 1)
            == Set::<Seq<u32>>::empty(),
{
    let m = p.len() as int;
    let q = p.push(v);
    let a = cliques_extending_between(g, p, k, v as int, v + 1);
    let b = cliques_extending(g, q, k);
    assert forall|c: Seq<u32>| a.contains(c) implies c.take(m + 1) =~= q && is_clique(g, q) by {
        assert(c.take(m) =~= p);
        lemma_clique_prefix(g, c, m + 1);
    }
    if is_clique(g, q) {
        assert forall|c: Seq<u32>| b.contains(c) implies a.contains(c) by {
            assert(c.take(m + 1) =~= q);
            assert(c.take(m + 1)[m] == c[m]);
            assert(c.take(m) =~= c.take(m + 1).take(m));
        }
        assert(a =~= b);
    } else {
        assert(a =~= Set::<Seq<u32>>::empty());
    }
}

/// The `k`-cliques extending a clique `p` form a finite set.
proof fn lemma_extending_finite(g: &AdjacencyMatrix, p: Seq<u32>, k: nat)
    requires
        g.wf(),
        is_clique(g, p),
        p.len() <= k,
    ensures
        cliques_extending(g, p, k).finite(),
    decreases k - p.len(), g.order() + 1,
{
    let e = cliques_extending(g, p, k);
    if p.len() == k {
        assert forall|c: Seq<u32>| e.contains(c) implies c == p by {
            assert(c =~= c.take(p.len() as int));
        }
        assert(e =~= set![p]) by {
            assert(p.take(p.len() as int) =~= p);
        }
    } else {
        lemma_between_finite(g, p, k, 0, g.order() as int);
        assert forall|c: Seq<u32>| e.contains(c) implies c[p.len() as int] < g.order() by {}
        assert(e =~= cliques_extending_between(g, p, k, 0, g.order() as int));
    }
}

/// The `k`-cliques extending `p` whose next vertex lies in `lo..hi` form a finite set.
proof fn lemma_between_finite(g: &AdjacencyMatrix, p: Seq<u32>, k: nat, lo: int, hi: int)
    requires
        g.wf(),
        is_clique(g, p),
        p.len() < k,
        0 <= lo,
        hi <= g.order(),
    ensures
        cliques_extending_between(g, p, k, lo, hi).finite(),
    decreases k - p.len(), hi - lo,
{
    if hi <= lo {
        assert(cliques_extending_between(g, p, k, lo, hi) =~= Set::<Seq<u32>>::empty());
    } else {
        let v = (hi - 1) as u32;
        lemma_between_finite(g, p, k, lo, hi - 1);
        lemma_slice(g, p, k, v);
        if is_clique(g, p.push(v)) {
            lemma_extending_finite(g, p.push(v), k);
        }
        assert(cliques_extending_between(g, p, k, lo, hi) =~= cliques_extending_between(
            g,
            p,
            k,
            lo,
            hi - 1,
        ).union(cliques_extending_between(g, p, k, v as int, v + 1)));
    }
}

/// Adds to `count` the number of `k`-cliques extending `current`, which is
/// left unchanged.
fn count_backtrack(adj: &AdjacencyMatrix, current: &mut Vec<u32>, start: u32, k: u32, count: &mut u64)
    requires
        adj.wf(),
        is_clique(adj, old(current)@),
        old(current)@.len() <= k,
        k <= adj.order(),
        start == next_start(old(current)@),
        *old(count) + cliques_extending(adj, old(current)@, k as nat).len() <= u64::MAX,
    ensures
        final(current)@ == old(current)@,
        *final(count) == *old(count) + cliques_extending(adj, old(current)@, k as nat).len(),
    decreases k - old(current)@.len(),
{
    let ghost p = current@;
    let ghost m = p.len() as int;
    let ghost c0 = *count as int;
    let ghost e = cliques_extending(adj, p, k as nat);
    proof {
        lemma_extending_finite(adj, p, k as nat);
    }
    if current.len() as u32 == k {
        assert forall|c: Seq<u32>| e.contains(c) implies c == p by {
            assert(c =~= c.take(m));
        }
        assert(e =~= set![p]) by {
            assert(p.take(m) =~= p);
        }
        *count = *count + 1;
        return;
    }
    let remaining = k - current.len() as u32;
    let n = adj.n();
    proof {
        if m > 0 {
            assert(p[m - 1] < n);
        }
    }
    if n - start < remaining {
        assert forall|c: Seq<u32>| !e.contains(c) by {
            lemma_no_room(adj, p, k as nat, c, start as int);
            if e.contains(c) && m > 0 {
                assert(c[m - 1] == p[m - 1]);
                assert(c[m - 1] < c[m]);
            }
        }
        assert(e =~= Set::<Seq<u32>>::empty());
        return;
    }
    let mut v: u32 = start;
    assert(cliques_extending_between(adj, p, k as nat, start as int, start as int) =~= Set::<
        Seq<u32>,
    >::empty());
    while v < n
        invariant
            adj.wf(),
            is_clique(adj, p),
            m == p.len(),
            m < k,
            k <= adj.order(),
            n == adj.order(),
            start == next_start(p),
            start <= v <= n,
            current@ == p,
            p == old(current)@,
            e == cliques_extending(adj, p, k as nat),
            e.finite(),
            c0 + e.len() <= u64::MAX,
            cliques_extending_between(adj, p, k as nat, start as int, v as int).finite(),
            cliques_extending_between(adj, p, k as nat, start as int, v as int).subset_of(e),
            *count == c0 + cliques_extending_between(adj, p, k as nat, start as int, v as int).len(),
        decreases n - v,
    {
        let ghost before = cliques_extending_between(adj, p, k as nat, start as int, v as int);
        let ghost after = cliques_extending_between(adj, p, k as nat, start as int, v + 1);
        let ghost slice = cliques_extending_between(adj, p, k as nat, v as int, v + 1);
        proof {
            lemma_slice(adj, p, k as nat, v);
            assert(after =~= before.union(slice));
            assert(before.disjoint(slice));
            assert(after.subset_of(e));
        }
        let connected = adjacent_to_all(adj, current, v);
        if connected {
            proof {
                lemma_push_clique(adj, p, v);
                lemma_extending_finite(adj, p.push(v), k as nat);
                lemma_set_disjoint_lens(before, slice);
                lemma_len_subset(after, e);
            }
            current.push(v);
            count_backtrack(adj, current, v + 1, k, count);
            current.pop();
            assert(current@ =~= p);
        } else {
            proof {
                if is_clique(adj, p.push(v)) {
                    let i = choose|i: int|
                        0 <= i < p.len() && !#[trigger] adj.adjacent(p[i] as int, v as int);
                    assert(p.push(v)[i] == p[i]);
                }
                assert(after =~= before);
            }
        }
        v = v + 1;
    }
    assert(cliques_extending_between(adj, p, k as nat, start as int, n as int) =~= e) by {
        assert forall|c: Seq<u32>| e.contains(c) implies start <= c[m] by {
            if m > 0 {
                assert(c[m - 1] == p[m - 1]);
                assert(c[m - 1] < c[m]);
            }
        }
    }
}

/// The `1`-cliques whose vertex lies in `lo..hi` number `hi - lo`.
proof fn lemma_singletons(g: &AdjacencyMatrix, lo: int, hi: int)
    requires
        g.wf(),
        0 <= lo <= hi <= g.order(),
    ensures
        cliques_extending_between(g, Seq::<u32>::empty(), 1, lo, hi).finite(),
        cliques_extending_between(g, Seq::<u32>::empty(), 1, lo, hi).len() == hi - lo,
    decreases hi - lo,
{
    let empty = Seq::<u32>::empty();
    if hi == lo {
        assert(cliques_extending_between(g, empty, 1, lo, hi) =~= Set::<Seq<u32>>::empty());
    } else {
        let v = (hi - 1) as u32;
        lemma_singletons(g, lo, hi - 1);
        let before = cliques_extending_between(g, empty, 1, lo, hi - 1);
        let slice = cliques_extending_between(g, empty, 1, v as int, v + 1);
        assert(is_clique(g, empty.push(v)));
        lemma_slice(g, empty, 1, v);
        let single = empty.push(v);
        assert(cliques_extending(g, single, 1) =~= set![single]) by {
            assert forall|c: Seq<u32>| cliques_extending(g, single, 1).contains(c) implies c == single by {
                assert(c =~= c.take(1));
            }
            assert(single.take(1) =~= single);
        }
        assert(cliques_extending_between(g, empty, 1, lo, hi) =~= before.union(slice));
        lemma_set_disjoint_lens(before, slice);
    }
}

/// Counts the cliques with exactly `k` vertices.
pub fn count_cliques(adj: &AdjacencyMatrix, k: u32) -> (count: u64)
    requires
        adj.wf(),
        k_cliques(adj, k as nat).len() <= u64::MAX,
    ensures
        k_cliques(adj, k as nat).finite(),
        count == k_cliques(adj, k as nat).len(),
{
    let ghost empty = Seq::<u32>::empty();
    assert(k_cliques(adj, k as nat) =~= cliques_extending(adj, empty, k as nat)) by {
        assert forall|c: Seq<u32>| #[trigger] is_k_clique(adj, c, k as nat) implies extends(c, empty) by {
            assert(c.take(0) =~= empty);
        }
    }
    if k == 0 {
        assert(k_cliques(adj, 0) =~= set![empty]) by {
            assert forall|c: Seq<u32>| k_cliques(adj, 0).contains(c) implies c == empty by {
                assert(c =~= empty);
            }
        }
        return 1;
    }
    let n = adj.n();
    if k == 1 {
        proof {
            lemma_singletons(adj, 0, n as int);
            assert(k_cliques(adj, 1) =~= cliques_extending_between(adj, empty, 1, 0, n as int));
        }
        return n as u64;
    }
    if k > n {
        proof {
            assert forall|c: Seq<u32>| !k_cliques(adj, k as nat).contains(c) by {
                if is_k_clique(adj, c, k as nat) {
                    lemma_clique_len_bound(adj, c);
                }
            }
            assert(k_cliques(adj, k as nat) =~= Set::<Seq<u32>>::empty());
        }
        return 0;
    }
    let mut current: Vec<u32> = Vec::new();
    let mut count: u64 = 0;
    proof {
        lemma_extending_finite(adj, empty, k as nat);
    }
    count_backtrack(adj, &mut current, 0, k, &mut count);
    count
}

/// `r` is the clique number of `g`: it has an `r`-clique and no larger one.
pub open spec fn is_clique_number(g: &AdjacencyMatrix, r: nat) -> bool {
    &&& has_clique(g, r)
    &&& forall|m: nat| m > r ==> !#[trigger] has_clique(g, m)
}

/// A graph with a clique of `m` vertices has one of every smaller size.
proof fn lemma_smaller_clique(g: &AdjacencyMatrix, m: nat, j: nat)
    requires
        has_clique(g, m),
        j <= m,
    ensures
        has_clique(g, j),
{
    let c = choose|c: Seq<u32>| #[trigger] is_k_clique(g, c, m);
    lemma_clique_prefix(g, c, j as int);
    assert(is_k_clique(g, c.take(j as int), j));
}

/// The clique number ω(G): the number of vertices of a largest clique.
pub fn max_clique_size(adj: &AdjacencyMatrix) -> (omega: u32)
    requires
        adj.wf(),
        adj.order() < u32::MAX,
    ensures
        is_clique_number(adj, omega as nat),
{
    let n = adj.n();
    if n == 0 {
        assert(is_k_clique(adj, Seq::<u32>::empty(), 0));
        assert forall|m: nat| m > 0 implies !#[trigger] has_clique(adj, m) by {
            if has_clique(adj, m) {
                let c = choose|c: Seq<u32>| #[trigger] is_k_clique(adj, c, m);
                lemma_clique_len_bound(adj, c);
            }
        }
        return 0;
    }
    let mut k: u32 = 1;
    assert(is_k_clique(adj, seq![0u32], 1));
    while k <= n
        invariant
            adj.wf(),
            n == adj.order(),
            n < u32::MAX,
            1 <= k <= n + 1,
            has_clique(adj, k as nat),
        decreases n + 1 - k,
    {
        match find_clique_witness(adj, k + 1) {
            None => {
                assert forall|m: nat| m > k implies !#[trigger] has_clique(adj, m) by {
                    if has_clique(adj, m) {
                        lemma_smaller_clique(adj, m, (k + 1) as nat);
                    }
                }
                return k;
            },
            Some(w) => {
                assert(is_k_clique(adj, w@, (k + 1) as nat));
            },
        }
        k = k + 1;
    }
    proof {
        let c = choose|c: Seq<u32>| #[trigger] is_k_clique(adj, c, k as nat);
        lemma_clique_len_bound(adj, c);
    }
    n
}

/// The clique number together with the number of largest cliques.
pub fn count_max_cliques(adj: &AdjacencyMatrix) -> (r: (u32, u64))
    requires
        adj.wf(),
        adj.order() < u32::MAX,
        forall|m: nat| is_clique_number(adj, m) ==> #[trigger] k_cliques(adj, m).len() <= u64::MAX,
    ensures
        is_clique_number(adj, r.0 as nat),
        k_cliques(adj, r.0 as nat).finite(),
        r.1 == k_cliques(adj, r.0 as nat).len(),
{
    let omega = max_clique_size(adj);
    let count = count_cliques(adj, omega);
    (omega, count)
}

/// `s` lists, in strictly increasing order, vertices of `g` no two of which are adjacent.
pub open spec fn is_independent_set(g: &AdjacencyMatrix, s: Seq<u32>) -> bool {
    &&& forall|i: int| 0 <= i < s.len() ==> (#[trigger] s[i]) < g.order()
    &&& forall|i: int, j: int| #![trigger s[i], s[j]] 0 <= i < j < s.len() ==> s[i] < s[j]
    &&& forall|i: int, j: int|
        #![trigger s[i], s[j]]
        0 <= i < j < s.len() ==> !g.adjacent(s[i] as int, s[j] as int)
}

/// All independent sets of `g` with exactly `k` vertices.
pub open spec fn k_independent_sets(g: &AdjacencyMatrix, k: nat) -> Set<Seq<u32>> {
    Set::new(|s: Seq<u32>| is_independent_set(g, s) && s.len() == k)
}

/// `g` has an independent set with exactly `k` vertices.
pub open spec fn has_independent_set(g: &AdjacencyMatrix, k: nat) -> bool {
    exists|s: Seq<u32>| #[trigger] is_independent_set(g, s) && s.len() == k
}

/// `r` is the independence number of `g`.
pub open spec fn is_independence_number(g: &AdjacencyMatrix, r: nat) -> bool {
    &&& has_independent_set(g, r)
    &&& forall|m: nat| m > r ==> !#[trigger] has_independent_set(g, m)
}

/// `c` is the complement of `g`.
pub open spec fn is_complement_of(c: &AdjacencyMatrix, g: &AdjacencyMatrix) -> bool {
    &&& c.order() == g.order()
    &&& forall|i: int, j: int|
        0 <= i < g.order() && 0 <= j < g.order() ==> #[trigger] c.adjacent(i, j) == (i != j
            && !g.adjacent(i, j))
}

/// The cliques of the complement are the independent sets of the graph.
pub proof fn lemma_complement_cliques(c: &AdjacencyMatrix, g: &AdjacencyMatrix)
    requires
        is_complement_of(c, g),
    ensures
        forall|s: Seq<u32>| #[trigger] is_clique(c, s) <==> is_independent_set(g, s),
        forall|k: nat| #[trigger] k_cliques(c, k) == k_independent_sets(g, k),
        forall|k: nat| #[trigger] has_clique(c, k) <==> has_independent_set(g, k),
        forall|r: nat| #[trigger] is_clique_number(c, r) <==> is_independence_number(g, r),
{
    assert forall|s: Seq<u32>| #[trigger] is_clique(c, s) <==> is_independent_set(g, s) by {
        if is_clique(c, s) {
            assert forall|i: int, j: int| #![trigger s[i], s[j]] 0 <= i < j < s.len() implies !g.adjacent(
                s[i] as int,
                s[j] as int,
            ) by {
                assert(c.adjacent(s[i] as int, s[j] as int));
            }
        }
        if is_independent_set(g, s) {
            assert forall|i: int, j: int| #![trigger s[i], s[j]] 0 <= i < j < s.len() implies c.adjacent(
                s[i] as int,
                s[j] as int,
            ) by {
                assert(s[i] < s[j]);
            }
        }
    }
    assert forall|k: nat| #[trigger] k_cliques(c, k) == k_independent_sets(g, k) by {
        assert(k_cliques(c, k) =~= k_independent_sets(g, k));
    }
    assert forall|k: nat| #[trigger] has_clique(c, k) <==> has_independent_set(g, k) by {
        if has_clique(c, k) {
            let s = choose|s: Seq<u32>| #[trigger] is_k_clique(c, s, k);
            assert(is_independent_set(g, s) && s.len() == k);
        }
        if has_independent_set(g, k) {
            let s = choose|s: Seq<u32>| #[trigger] is_independent_set(g, s) && s.len() == k;
            assert(is_k_clique(c, s, k));
        }
    }
    assert forall|r: nat| #[trigger] is_clique_number(c, r) <==> is_independence_number(g, r) by {
        assert(has_clique(c, r) <==> has_independent_set(g, r));
        if is_clique_number(c, r) {
            assert forall|m: nat| m > r implies !#[trigger] has_independent_set(g, m) by {
                assert(!has_clique(c, m));
            }
        }
        if is_independence_number(g, r) {
            assert forall|m: nat| m > r implies !#[trigger] has_clique(c, m) by {
                assert(!has_independent_set(g, m));
            }
        }
    }
}

/// A graph has exactly one clique number.
pub proof fn lemma_clique_number_unique(g: &AdjacencyMatrix, r1: nat, r2: nat)
    requires
        is_clique_number(g, r1),
        is_clique_number(g, r2),
    ensures
        r1 == r2,
{
    if r1 < r2 {
        assert(!has_clique(g, r2));
    } else if r2 < r1 {
        assert(!has_clique(g, r1));
    }
}

/// Having a clique of some size implies having cliques of every smaller size.
pub proof fn lemma_cliques_downward_closed(g: &AdjacencyMatrix, m: nat, j: nat)
    requires
        has_clique(g, m),
        j <= m,
    ensures
        has_clique(g, j),
{
    lemma_smaller_clique(g, m, j);
}

/// The empty list is the only 0-clique, and the 1-cliques are the single
/// vertices: there are as many as vertices.
pub proof fn lemma_small_clique_counts(g: &AdjacencyMatrix)
    requires
        g.wf(),
    ensures
        k_cliques(g, 0) == set![Seq::<u32>::empty()],
        k_cliques(g, 1).finite(),
        k_cliques(g, 1).len() == g.order(),
{
    let empty = Seq::<u32>::empty();
    assert(k_cliques(g, 0) =~= set![empty]) by {
        assert forall|c: Seq<u32>| k_cliques(g, 0).contains(c) implies c == empty by {
            assert(c =~= empty);
        }
    }
    lemma_singletons(g, 0, g.order() as int);
    assert(k_cliques(g, 1) =~= cliques_extending_between(g, empty, 1, 0, g.order() as int)) by {
        assert forall|c: Seq<u32>| k_cliques(g, 1).contains(c) implies extends(c, empty) by {
            assert(c.take(0) =~= empty);
        }
    }
}

/// No clique has more vertices than the graph.
pub proof fn lemma_no_clique_larger_than_graph(g: &AdjacencyMatrix, k: nat)
    requires
        k > g.order(),
    ensures
        !has_clique(g, k),
        k_cliques(g, k) == Set::<Seq<u32>>::empty(),
{
    assert forall|c: Seq<u32>| !#[trigger] is_k_clique(g, c, k) by {
        if is_k_clique(g, c, k) {
            lemma_clique_len_bound(g, c);
        }
    }
    assert(k_cliques(g, k) =~= Set::<Seq<u32>>::empty());
}

/// A `k`-clique exists exactly when the number of `k`-cliques is positive,
/// and the least `k`-clique is one of those counted: the witness search and
/// the count agree on every graph and size.
pub proof fn lemma_witness_iff_count(g: &AdjacencyMatrix, k: nat)
    requires
        g.wf(),
    ensures
        k_cliques(g, k).finite(),
        has_clique(g, k) <==> k_cliques(g, k).len() > 0,
        forall|w: Seq<u32>| #[trigger] is_least_k_clique(g, w, k) ==> k_cliques(g, k).contains(w),
{
    let empty = Seq::<u32>::empty();
    assert(is_clique(g, empty));
    lemma_extending_finite(g, empty, k);
    assert(k_cliques(g, k) =~= cliques_extending(g, empty, k)) by {
        assert forall|c: Seq<u32>| #[trigger] is_k_clique(g, c, k) implies extends(c, empty) by {
            assert(c.take(0) =~= empty);
        }
    }
    if has_clique(g, k) {
        let c = choose|c: Seq<u32>| #[trigger] is_k_clique(g, c, k);
        assert(k_cliques(g, k).contains(c));
    } else if k_cliques(g, k).len() > 0 {
        let c = k_cliques(g, k).choose();
        assert(k_cliques(g, k).contains(c));
    }
}

/// Strictly increasing lists of `k` vertices, each in `lo..n`.
spec fn increasing_lists(k: nat, lo: int, n: int) -> Set<Seq<u32>> {
    Set::new(
        |c: Seq<u32>|
            c.len() == k && (forall|i: int| 0 <= i < c.len() ==> lo <= #[trigger] c[i] < n) && (forall|
                i: int,
                j: int,
            |
                #![trigger c[i], c[j]]
                0 <= i < j < c.len() ==> c[i] < c[j]),
    )
}

/// There are at most `2^(n - lo)` strictly increasing lists of any one
/// length with entries in `lo..n`.
proof fn lemma_increasing_lists_bound(k: nat, lo: int, n: int)
    requires
        0 <= lo <= n <= u32::MAX,
    ensures
        increasing_lists(k, lo, n).finite(),
        increasing_lists(k, lo, n).len() <= vstd::arithmetic::power2::pow2((n - lo) as nat),
    decreases n - lo,
{
    let s = increasing_lists(k, lo, n);
    let empty = Seq::<u32>::empty();
    vstd::arithmetic::power2::lemma_pow2_pos((n - lo) as nat);
    if k == 0 {
        assert(s =~= set![empty]) by {
            assert forall|c: Seq<u32>| s.contains(c) implies c == empty by {
                assert(c =~= empty);
            }
        }
    } else if lo == n {
        assert(s =~= Set::<Seq<u32>>::empty()) by {
            assert forall|c: Seq<u32>| !s.contains(c) by {
                if s.contains(c) {
                    assert(lo <= c[0] < n);
                }
            }
        }
    } else {
        let rest = increasing_lists((k - 1) as nat, lo + 1, n);
        let later = increasing_lists(k, lo + 1, n);
        lemma_increasing_lists_bound((k - 1) as nat, lo + 1, n);
        lemma_increasing_lists_bound(k, lo + 1, n);
        let f = |c: Seq<u32>| seq![lo as u32] + c;
        let a = rest.map(f);
        vstd::set_lib::lemma_map_size_bound(rest, a, f);
        assert(s =~= a.union(later)) by {
            assert forall|c: Seq<u32>| s.contains(c) implies a.union(later).contains(c) by {
                if c[0] == lo {
                    let r = c.drop_first();
                    assert forall|i: int| 0 <= i < r.len() implies lo + 1 <= #[trigger] r[i] < n by {
                        assert(r[i] == c[i + 1]);
                        assert(c[0] < c[i + 1]);
                    }
                    assert forall|i: int, j: int| 0 <= i < j < r.len() implies #[trigger] r[i] < #[trigger] r[j] by {
                        assert(r[i] == c[i + 1] && r[j] == c[j + 1]);
                    }
                    assert(rest.contains(r));
                    assert(f(r) =~= c);
                    assert(a.contains(c));
                } else {
                    assert forall|i: int| 0 <= i < c.len() implies lo + 1 <= #[trigger] c[i] < n by {
                        if i > 0 {
                            assert(c[0] < c[i]);
                        }
                    }
                    assert(later.contains(c));
                }
            }
            assert forall|c: Seq<u32>| a.union(later).contains(c) implies s.contains(c) by {
                if a.contains(c) {
                    let r = choose|r: Seq<u32>| rest.contains(r) && f(r) == c;
                    assert(c[0] == lo);
                    assert forall|i: int| 0 <= i < c.len() implies lo <= #[trigger] c[i] < n by {
                        if i > 0 {
                            assert(c[i] == r[i - 1]);
                        }
                    }
                    assert forall|i: int, j: int| 0 <= i < j < c.len() implies #[trigger] c[i] < #[trigger] c[j] by {
                        assert(c[j] == r[j - 1]);
                        if i > 0 {
                            assert(c[i] == r[i - 1]);
                        }
                    }
                }
            }
        }
        vstd::set_lib::lemma_len_union(a, later);
        vstd::arithmetic::power2::lemma_pow2_unfold((n - lo) as nat);
        assert((n - (lo + 1)) as nat == ((n - lo) as nat - 1) as nat);
    }
}

/// A graph on `n` vertices has at most `2^n` cliques, and at most `2^n`
/// independent sets, of any one size; with at most 63 vertices both counts
/// fit in `u64`.
pub proof fn lemma_clique_count_bound(g: &AdjacencyMatrix, k: nat)
    requires
        g.wf(),
    ensures
        k_cliques(g, k).finite(),
        k_cliques(g, k).len() <= vstd::arithmetic::power2::pow2(g.order()),
        k_independent_sets(g, k).finite(),
        k_independent_sets(g, k).len() <= vstd::arithmetic::power2::pow2(g.order()),
        g.order() <= 63 ==> k_cliques(g, k).len() <= u64::MAX && k_independent_sets(g, k).len() <= u64::MAX,
{
    let n = g.order() as int;
    let all = increasing_lists(k, 0, n);
    lemma_increasing_lists_bound(k, 0, n);
    assert(k_cliques(g, k).subset_of(all));
    assert(k_independent_sets(g, k).subset_of(all));
    vstd::set_lib::lemma_len_subset(k_cliques(g, k), all);
    vstd::set_lib::lemma_len_subset(k_independent_sets(g, k), all);
    if g.order() <= 63 {
        vstd::arithmetic::power2::lemma2_to64();
        vstd::arithmetic::power2::lemma2_to64_rest();
        if g.order() < 63 {
            vstd::arithmetic::power2::lemma_pow2_strictly_increases(g.order(), 63);
        }
    }
}

} // verus!
