//! Relabelling a graph by a canonical labelling such as nauty computes.

use vstd::prelude::*;

use crate::graph::{is_permutation, occurs_in, AdjacencyMatrix};

verus! {

/// `lab` lists each vertex `0..n` exactly once (`lab[i]` is the original
/// vertex placed at canonical position `i`).
pub open spec fn is_labelling(lab: Seq<i32>, n: nat) -> bool {
    &&& lab.len() == n
    &&& forall|i: int| 0 <= i < lab.len() ==> 0 <= #[trigger] lab[i] < n
    &&& forall|i: int, j: int| #![trigger lab[i], lab[j]] 0 <= i < j < lab.len() ==> lab[i] != lab[j]
    &&& forall|a: int| 0 <= a < n ==> #[trigger] labels(lab, a)
}

/// Some position of `lab` holds vertex `a`.
pub open spec fn labels(lab: Seq<i32>, a: int) -> bool {
    exists|i: int| 0 <= i < lab.len() && lab[i] == a
}

/// The graph relabelled by `lab`: canonical positions `a` and `b` are
/// adjacent exactly when the original vertices `lab[a]` and `lab[b]` are.
/// `None` when `lab` is not a labelling of the vertices.
pub fn canonical_relabel(adj: &AdjacencyMatrix, lab: &[i32]) -> (r: Option<AdjacencyMatrix>)
    requires
        adj.wf(),
    ensures
        match r {
            Some(c) => {
                &&& is_labelling(lab@, adj.order())
                &&& c.wf()
                &&& c.order() == adj.order()
                &&& forall|a: int, b: int|
                    0 <= a < adj.order() && 0 <= b < adj.order() ==> #[trigger] c.adjacent(a, b)
                        == adj.adjacent(lab[a] as int, lab[b] as int)
            },
            None => !is_labelling(lab@, adj.order()),
        },
{
    let n = adj.n();
    if lab.len() != n as usize {
        return None;
    }
    let mut inv: Vec<u32> = Vec::new();
    let mut seen: Vec<bool> = Vec::new();
    let mut k: u32 = 0;
    while k < n
        invariant
            k <= n,
            inv@.len() == k,
            seen@.len() == k,
            forall|a: int| 0 <= a < k ==> !#[trigger] seen@[a],
            forall|a: int| 0 <= a < k ==> #[trigger] inv@[a] == 0,
        decreases n - k,
    {
        inv.push(0);
        seen.push(false);
        k = k + 1;
    }
    let mut i: u32 = 0;
    while i < n
        invariant
            n == adj.order(),
            lab@.len() == n,
            i <= n,
            inv@.len() == n,
            seen@.len() == n,
            forall|j: int| 0 <= j < i ==> 0 <= #[trigger] lab@[j] < n,
            forall|j: int, l: int| #![trigger lab@[j], lab@[l]] 0 <= j < l < i ==> lab@[j] != lab@[l],
            forall|j: int| 0 <= j < i ==> #[trigger] seen@[lab@[j] as int],
            forall|j: int| 0 <= j < i ==> #[trigger] inv@[lab@[j] as int] == j,
            forall|a: int| 0 <= a < n && #[trigger] seen@[a] ==> labels(lab@.take(i as int), a),
            forall|a: int| 0 <= a < n ==> #[trigger] inv@[a] < n,
        decreases n - i,
    {
        let v = lab[i as usize];
        if v < 0 || v as i64 >= n as i64 {
            assert(!is_labelling(lab@, adj.order()));
            return None;
        }
        if seen[v as usize] {
            proof {
                let w = choose|w: int| 0 <= w < i && lab@.take(i as int)[w] == v;
                assert(lab@[w] == lab@[i as int]);
            }
            assert(!is_labelling(lab@, adj.order()));
            return None;
        }
        proof {
            assert forall|j: int| 0 <= j < i implies lab@[j] != v by {
                assert(seen@[lab@[j] as int]);
            }
        }
        seen.set(v as usize, true);
        inv.set(v as usize, i);
        proof {
            assert forall|a: int| 0 <= a < n && #[trigger] seen@[a] implies labels(
                lab@.take(i + 1),
                a,
            ) by {
                if a == v {
                    assert(lab@.take(i + 1)[i as int] == v);
                } else {
                    assert(labels(lab@.take(i as int), a));
                    let w = choose|w: int| 0 <= w < i && lab@.take(i as int)[w] == a;
                    assert(lab@.take(i + 1)[w] == a);
                }
            }
        }
        i = i + 1;
    }
    let mut a: u32 = 0;
    while a < n
        invariant
            n == adj.order(),
            a <= n,
            seen@.len() == n,
            lab@.len() == n,
            forall|j: int| 0 <= j < n ==> #[trigger] seen@[lab@[j] as int],
            forall|x: int| 0 <= x < a ==> #[trigger] seen@[x],
        decreases n - a,
    {
        if !seen[a as usize] {
            proof {
                if labels(lab@, a as int) {
                    let w = choose|w: int| 0 <= w < lab@.len() && lab@[w] == a;
                    assert(seen@[lab@[w] as int]);
                }
            }
            assert(!is_labelling(lab@, adj.order()));
            return None;
        }
        a = a + 1;
    }
    proof {
        assert(lab@.take(n as int) =~= lab@);
        assert forall|x: int| 0 <= x < n implies #[trigger] labels(lab@, x) by {
            assert(seen@[x]);
        }
        assert forall|x: int| 0 <= x < n implies #[trigger] occurs_in(inv@, x) by {
            assert(inv@[lab@[x] as int] == x);
        }
        assert forall|x: int, y: int| 0 <= x < y < inv@.len() implies inv@[x] != inv@[y] by {
            assert(labels(lab@, x));
            assert(labels(lab@, y));
            let wx = choose|w: int| 0 <= w < lab@.len() && lab@[w] == x;
            let wy = choose|w: int| 0 <= w < lab@.len() && lab@[w] == y;
            assert(inv@[lab@[wx] as int] == wx);
            assert(inv@[lab@[wy] as int] == wy);
        }
    }
    let c = adj.permute_vertices(inv.as_slice());
    assert forall|x: int, y: int|
        0 <= x < n && 0 <= y < n implies #[trigger] c.adjacent(x, y) == adj.adjacent(
        lab[x] as int,
        lab[y] as int,
    ) by {
        assert(c.adjacent(inv@[lab@[x] as int] as int, inv@[lab@[y] as int] as int) == adj.adjacent(
            lab@[x] as int,
            lab@[y] as int,
        ));
    }
    Some(c)
}

} // verus!
