//! Undirected simple graphs as symmetric boolean adjacency matrices.

use vstd::prelude::*;

use crate::cid::{upper_triangle, utri_bits};

verus! {

/// An undirected simple graph on vertices `0..n`, stored as an `n x n`
/// symmetric boolean matrix with an empty diagonal.
#[derive(Debug, PartialEq, Eq)]
pub struct AdjacencyMatrix {
    rows: Vec<Vec<bool>>,
}

impl View for AdjacencyMatrix {
    type V = Seq<Seq<bool>>;

    closed spec fn view(&self) -> Seq<Seq<bool>> {
        self.rows@.map_values(|r: Vec<bool>| r@)
    }
}

impl AdjacencyMatrix {
    /// Number of vertices of the modelled graph.
    pub open spec fn order(&self) -> nat {
        self@.len()
    }

    /// Whether `i` and `j` are adjacent; false for out-of-range vertices.
    pub open spec fn adjacent(&self, i: int, j: int) -> bool {
        &&& 0 <= i < self@.len()
        &&& 0 <= j < self@.len()
        &&& self@[i][j]
    }

    /// The matrix is square, symmetric, loop-free, and its order fits in `u32`.
    pub open spec fn wf(&self) -> bool {
        &&& self@.len() <= u32::MAX
        &&& forall|i: int| 0 <= i < self@.len() ==> #[trigger] self@[i].len() == self@.len()
        &&& forall|i: int, j: int|
            0 <= i < self@.len() && 0 <= j < self@.len() ==> #[trigger] self@[i][j] == self@[j][i]
        &&& forall|i: int| 0 <= i < self@.len() ==> !#[trigger] self@[i][i]
    }

    /// The empty graph (no edges) on `n` vertices.
    pub fn new(n: u32) -> (g: Self)
        ensures
            g.wf(),
            g.order() == n,
            forall|i: int, j: int| !#[trigger] g.adjacent(i, j),
    {
        let mut rows: Vec<Vec<bool>> = Vec::new();
        let mut i: u32 = 0;
        while i < n
            invariant
                i <= n,
                rows@.len() == i,
                forall|a: int| 0 <= a < i ==> #[trigger] rows@[a]@.len() == n,
                forall|a: int, b: int| 0 <= a < i && 0 <= b < n ==> !#[trigger] rows@[a]@[b],
            decreases n - i,
        {
            let mut row: Vec<bool> = Vec::new();
            let mut j: u32 = 0;
            while j < n
                invariant
                    j <= n,
                    row@.len() == j,
                    forall|b: int| 0 <= b < j ==> !#[trigger] row@[b],
                decreases n - j,
            {
                row.push(false);
                j = j + 1;
            }
            rows.push(row);
            i = i + 1;
        }
        let g = AdjacencyMatrix { rows };
        assert(g@.len() == n);
        g
    }

    /// Number of vertices.
    pub fn n(&self) -> (r: u32)
        requires
            self.wf(),
        ensures
            r == self.order(),
    {
        self.rows.len() as u32
    }

    /// Whether vertices `u` and `v` are adjacent.
    pub fn edge(&self, u: u32, v: u32) -> (b: bool)
        requires
            self.wf(),
            u < self.order(),
            v < self.order(),
        ensures
            b == self.adjacent(u as int, v as int),
    {
        let row = &self.rows[u as usize];
        assert(row@ == self@[u as int]);
        row[v as usize]
    }

    /// Adds (`present == true`) or removes the edge between `u` and `v`.
    /// A loop (`u == v`) is never stored: the graph is left unchanged then.
    pub fn set_edge(&mut self, u: u32, v: u32, present: bool)
        requires
            old(self).wf(),
            u < old(self).order(),
            v < old(self).order(),
        ensures
            final(self).wf(),
            final(self).order() == old(self).order(),
            forall|i: int, j: int|
                #[trigger] final(self).adjacent(i, j) == if u != v && ((i == u && j == v) || (i
                    == v && j == u)) {
                    present
                } else {
                    old(self).adjacent(i, j)
                },
    {
        if u == v {
            return;
        }
        let ghost before = self@;
        self.set_cell(u, v, present);
        self.set_cell(v, u, present);
        assert(self@ =~= before.update(u as int, before[u as int].update(v as int, present)).update(
            v as int,
            before[v as int].update(u as int, present),
        ));
    }

    fn set_cell(&mut self, u: u32, v: u32, value: bool)
        requires
            (u as int) < old(self)@.len(),
            (v as int) < old(self)@[u as int].len(),
        ensures
            final(self)@ == old(self)@.update(u as int, old(self)@[u as int].update(v as int, value)),
    {
        let ghost before = self@;
        let mut row: Vec<bool> = Vec::new();
        std::mem::swap(&mut row, &mut self.rows[u as usize]);
        assert(row@ == before[u as int]);
        row.set(v as usize, value);
        self.rows.set(u as usize, row);
        assert(self@ =~= before.update(u as int, before[u as int].update(v as int, value)));
    }

    /// The complement graph: distinct vertices are adjacent exactly when
    /// they are not adjacent here.
    pub fn complement(&self) -> (c: Self)
        requires
            self.wf(),
        ensures
            c.wf(),
            c.order() == self.order(),
            forall|i: int, j: int|
                0 <= i < self.order() && 0 <= j < self.order() ==> #[trigger] c.adjacent(i, j) == (i
                    != j && !self.adjacent(i, j)),
    {
        let n = self.rows.len();
        let mut rows: Vec<Vec<bool>> = Vec::new();
        let mut i: usize = 0;
        while i < n
            invariant
                self.wf(),
                n == self@.len(),
                i <= n,
                rows@.len() == i,
                forall|a: int| 0 <= a < i ==> #[trigger] rows@[a]@.len() == n,
                forall|a: int, b: int|
                    0 <= a < i && 0 <= b < n ==> #[trigger] rows@[a]@[b] == (a != b && !self@[a][b]),
            decreases n - i,
        {
            let src = &self.rows[i];
            assert(src@ == self@[i as int]);
            let mut row: Vec<bool> = Vec::new();
            let mut j: usize = 0;
            while j < n
                invariant
                    self.wf(),
                    n == self@.len(),
                    i < n,
                    src@ == self@[i as int],
                    j <= n,
                    row@.len() == j,
                    forall|b: int| 0 <= b < j ==> #[trigger] row@[b] == (i != b && !self@[i as int][b]),
                decreases n - j,
            {
                row.push(i != j && !src[j]);
                j = j + 1;
            }
            rows.push(row);
            i = i + 1;
        }
        let c = AdjacencyMatrix { rows };
        assert(c@.len() == n);
        assert forall|a: int| 0 <= a < n implies #[trigger] c@[a] == rows@[a]@ by {}
        c
    }
}

/// Number of `true` entries.
pub open spec fn count_true(s: Seq<bool>) -> nat
    decreases s.len(),
{
    if s.len() == 0 {
        0
    } else {
        count_true(s.drop_last()) + if s.last() {
            1nat
        } else {
            0nat
        }
    }
}

/// Number of edges: adjacent pairs `i < j`.
pub open spec fn edge_count(g: &AdjacencyMatrix) -> nat {
    count_true(utri_bits(g))
}

impl AdjacencyMatrix {
    /// Number of edges.
    pub fn num_edges(&self) -> (c: usize)
        requires
            self.wf(),
        ensures
            c == edge_count(self),
    {
        let bits = upper_triangle(self);
        let mut c: usize = 0;
        let mut i: usize = 0;
        while i < bits.len()
            invariant
                i <= bits@.len(),
                c <= i,
                c == count_true(bits@.take(i as int)),
            decreases bits@.len() - i,
        {
            assert(bits@.take(i + 1).drop_last() =~= bits@.take(i as int));
            if bits[i] {
                c = c + 1;
            }
            i = i + 1;
        }
        assert(bits@.take(bits@.len() as int) =~= bits@);
        c
    }
}

/// `perm` lists each of `0..n` exactly once.
pub open spec fn is_permutation(perm: Seq<u32>, n: nat) -> bool {
    &&& perm.len() == n
    &&& forall|i: int| 0 <= i < perm.len() ==> #[trigger] perm[i] < n
    &&& forall|i: int, j: int| 0 <= i < j < perm.len() ==> perm[i] != perm[j]
    &&& forall|a: int| 0 <= a < n ==> #[trigger] occurs_in(perm, a)
}

/// `a` is one of the entries of `s`.
pub open spec fn occurs_in(s: Seq<u32>, a: int) -> bool {
    exists|i: int| 0 <= i < s.len() && s[i] == a
}

impl Clone for AdjacencyMatrix {
    /// A copy with the same rows.
    fn clone(&self) -> (c: Self)
        ensures
            c@ == self@,
    {
        let n = self.rows.len();
        let mut rows: Vec<Vec<bool>> = Vec::new();
        let mut i: usize = 0;
        while i < n
            invariant
                n == self@.len(),
                i <= n,
                rows@.len() == i,
                forall|a: int| 0 <= a < i ==> #[trigger] rows@[a]@ == self@[a],
            decreases n - i,
        {
            let src = &self.rows[i];
            assert(src@ == self@[i as int]);
            let m = src.len();
            let mut row: Vec<bool> = Vec::new();
            let mut j: usize = 0;
            while j < m
                invariant
                    m == src@.len(),
                    j <= m,
                    row@.len() == j,
                    forall|b: int| 0 <= b < j ==> #[trigger] row@[b] == src@[b],
                decreases m - j,
            {
                row.push(src[j]);
                j = j + 1;
            }
            assert(row@ =~= src@);
            rows.push(row);
            i = i + 1;
        }
        let c = AdjacencyMatrix { rows };
        assert(c@ =~= self@);
        c
    }
}

impl AdjacencyMatrix {
    /// Relabels the vertices: the result has an edge between `perm[i]` and
    /// `perm[j]` exactly when this graph has one between `i` and `j`.
    pub fn permute_vertices(&self, perm: &[u32]) -> (p: Self)
        requires
            self.wf(),
            is_permutation(perm@, self.order()),
        ensures
            p.wf(),
            p.order() == self.order(),
            forall|i: int, j: int|
                0 <= i < self.order() && 0 <= j < self.order() ==> #[trigger] p.adjacent(
                    perm[i] as int,
                    perm[j] as int,
                ) == self.adjacent(i, j),
    {
        let n = self.rows.len();
        // inv[perm[i]] = i
        let mut inv: Vec<u32> = Vec::new();
        let mut k: usize = 0;
        while k < n
            invariant
                k <= n,
                inv@.len() == k,
                forall|a: int| 0 <= a < k ==> #[trigger] inv@[a] == 0,
            decreases n - k,
        {
            inv.push(0);
            k = k + 1;
        }
        let mut i: usize = 0;
        while i < n
            invariant
                n == self@.len(),
                n <= u32::MAX,
                is_permutation(perm@, n as nat),
                i <= n,
                inv@.len() == n,
                forall|a: int| 0 <= a < i ==> #[trigger] inv@[perm[a] as int] == a,
                forall|a: int| 0 <= a < n ==> #[trigger] inv@[a] < n,
            decreases n - i,
        {
            let target = perm[i];
            inv.set(target as usize, i as u32);
            assert forall|a: int| 0 <= a < i + 1 implies #[trigger] inv@[perm[a] as int] == a by {
                if a < i {
                    assert(perm[a] != perm[i as int]);
                }
            }
            i = i + 1;
        }
        assert forall|a: int| 0 <= a < n implies #[trigger] perm[inv@[a] as int] == a by {
            assert(occurs_in(perm@, a));
            let w = choose|w: int| 0 <= w < perm@.len() && perm[w] == a;
            assert(inv@[perm[w] as int] == w);
        }
        let mut rows: Vec<Vec<bool>> = Vec::new();
        let mut a: usize = 0;
        while a < n
            invariant
                self.wf(),
                n == self@.len(),
                inv@.len() == n,
                forall|x: int| 0 <= x < n ==> #[trigger] inv@[x] < n,
                a <= n,
                rows@.len() == a,
                forall|x: int| 0 <= x < a ==> #[trigger] rows@[x]@.len() == n,
                forall|x: int, y: int|
                    0 <= x < a && 0 <= y < n ==> #[trigger] rows@[x]@[y] == self@[inv@[x] as int][inv@[y] as int],
            decreases n - a,
        {
            let src = &self.rows[inv[a] as usize];
            assert(src@ == self@[inv@[a as int] as int]);
            let mut row: Vec<bool> = Vec::new();
            let mut b: usize = 0;
            while b < n
                invariant
                    self.wf(),
                    n == self@.len(),
                    inv@.len() == n,
                    forall|x: int| 0 <= x < n ==> #[trigger] inv@[x] < n,
                    a < n,
                    src@ == self@[inv@[a as int] as int],
                    b <= n,
                    row@.len() == b,
                    forall|y: int| 0 <= y < b ==> #[trigger] row@[y] == self@[inv@[a as int] as int][inv@[y] as int],
                decreases n - b,
            {
                row.push(src[inv[b] as usize]);
                b = b + 1;
            }
            rows.push(row);
            a = a + 1;
        }
        let p = AdjacencyMatrix { rows };
        assert(p@.len() == n);
        assert forall|x: int| 0 <= x < n implies #[trigger] p@[x] == rows@[x]@ by {}
        assert forall|x: int, y: int|
            0 <= x < n && 0 <= y < n implies #[trigger] p@[x][y] == p@[y][x] by {
            assert(p@[x][y] == self@[inv@[x] as int][inv@[y] as int]);
            assert(p@[y][x] == self@[inv@[y] as int][inv@[x] as int]);
        }
        assert forall|x: int| 0 <= x < n implies !#[trigger] p@[x][x] by {
            assert(p@[x][x] == self@[inv@[x] as int][inv@[x] as int]);
        }
        assert forall|x: int, y: int|
            0 <= x < n && 0 <= y < n implies #[trigger] p.adjacent(perm[x] as int, perm[y] as int)
            == self.adjacent(x, y) by {
            assert(inv@[perm[x] as int] == x);
            assert(inv@[perm[y] as int] == y);
            assert(p@[perm[x] as int][perm[y] as int] == self@[x][y]);
        }
        p
    }
}

} // verus!
