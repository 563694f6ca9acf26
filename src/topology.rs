use vstd::prelude::*;

verus! {

/// `labels` with every occurrence of the label `from` replaced by `to`.
pub open spec fn relabel(labels: Seq<int>, from: int, to: int) -> Seq<int> {
    Seq::new(labels.len(), |i: int| if labels[i] == from { to } else { labels[i] })
}

/// Component labels of the nodes `0..n` once the first `k` edges are joined:
/// every node starts in a component of its own, labelled by its index, and
/// joining the edge `(u, v)` moves the whole component of `v` into that of `u`.
pub open spec fn components(n: nat, edges: Seq<(int, int)>, k: nat) -> Seq<int>
    decreases k,
{
    if k == 0 {
        Seq::new(n, |i: int| i)
    } else {
        let prev = components(n, edges, (k - 1) as nat);
        let e = edges[k - 1];
        relabel(prev, prev[e.1], prev[e.0])
    }
}

/// Every edge names two nodes among `0..n`.
pub open spec fn edges_in_range(n: nat, edges: Seq<(int, int)>) -> bool {
    forall|i: int|
        0 <= i < edges.len() ==> 0 <= #[trigger] edges[i].0 < n && 0 <= edges[i].1 < n
}

/// No edge closes a cycle: each one joins two components that were still apart.
pub open spec fn acyclic(n: nat, edges: Seq<(int, int)>) -> bool {
    forall|k: int|
        0 <= k < edges.len() ==> #[trigger] components(n, edges, k as nat)[edges[k].0]
            != components(n, edges, k as nat)[edges[k].1]
}

/// Once all edges are joined, every node lies in the component of node 0.
pub open spec fn connected(n: nat, edges: Seq<(int, int)>) -> bool {
    forall|v: int|
        0 <= v < n ==> #[trigger] components(n, edges, edges.len())[v] == components(
            n,
            edges,
            edges.len(),
        )[0]
}

/// The edges form a tree that spans the nodes `0..n`: one edge fewer than
/// nodes (none for no node), all in range, connected and without a cycle.
pub open spec fn is_spanning_tree(n: nat, edges: Seq<(int, int)>) -> bool {
    &&& edges.len() == if n == 0 { 0 } else { n - 1 }
    &&& edges_in_range(n, edges)
    &&& acyclic(n, edges)
    &&& connected(n, edges)
}

proof fn lemma_components_len(n: nat, edges: Seq<(int, int)>, k: nat)
    ensures
        components(n, edges, k).len() == n,
    decreases k,
{
    if k > 0 {
        lemma_components_len(n, edges, (k - 1) as nat);
    }
}

/// Two nodes that share a component keep sharing one as more edges are joined.
proof fn lemma_together_stays(n: nat, edges: Seq<(int, int)>, j: nat, k: nat, a: int, b: int)
    requires
        j <= k,
        0 <= a < n,
        0 <= b < n,
        components(n, edges, j)[a] == components(n, edges, j)[b],
    ensures
        components(n, edges, k)[a] == components(n, edges, k)[b],
    decreases k - j,
{
    if j < k {
        lemma_components_len(n, edges, j);
        lemma_components_len(n, edges, j + 1);
        lemma_together_stays(n, edges, j + 1, k, a, b);
    }
}

/// Joining an edge puts its two ends into one component.
proof fn lemma_joined(n: nat, edges: Seq<(int, int)>, k: nat)
    requires
        k < edges.len(),
        edges_in_range(n, edges),
    ensures
        components(n, edges, k + 1)[edges[k as int].0] == components(n, edges, k + 1)[edges[k as int].1],
{
    lemma_components_len(n, edges, k);
    let e = edges[k as int];
    assert(0 <= e.0 < n && 0 <= e.1 < n);
}

/// A spanning tree has no self-loop and no edge twice, in either orientation.
pub proof fn lemma_spanning_tree_is_simple(n: nat, edges: Seq<(int, int)>)
    requires
        is_spanning_tree(n, edges),
    ensures
        forall|i: int| 0 <= i < edges.len() ==> #[trigger] edges[i].0 != edges[i].1,
        forall|i: int, j: int|
            0 <= i < j < edges.len() ==> !((#[trigger] edges[i] == #[trigger] edges[j]) || (
            edges[i].0 == edges[j].1 && edges[i].1 == edges[j].0)),
{
    assert forall|i: int| 0 <= i < edges.len() implies #[trigger] edges[i].0 != edges[i].1 by {
        assert(components(n, edges, i as nat)[edges[i].0] != components(n, edges, i as nat)[edges[i].1]);
    }
    assert forall|i: int, j: int|
        0 <= i < j < edges.len() implies !((#[trigger] edges[i] == #[trigger] edges[j]) || (
        edges[i].0 == edges[j].1 && edges[i].1 == edges[j].0)) by {
        lemma_joined(n, edges, i as nat);
        assert(0 <= edges[i].0 < n && 0 <= edges[i].1 < n);
        lemma_together_stays(n, edges, (i + 1) as nat, j as nat, edges[i].0, edges[i].1);
        assert(components(n, edges, j as nat)[edges[j].0] != components(n, edges, j as nat)[edges[j].1]);
    }
}

/// Edges of machine indices, read as pairs of integers.
pub open spec fn int_edges(edges: Seq<(usize, usize)>) -> Seq<(int, int)> {
    Seq::new(edges.len(), |i: int| (edges[i].0 as int, edges[i].1 as int))
}

/// Moves every node labelled `from` into the component labelled `to`.
fn relabel_in_place(labels: &mut Vec<usize>, from: usize, to: usize)
    ensures
        final(labels)@.len() == old(labels)@.len(),
        forall|i: int|
            0 <= i < old(labels)@.len() ==> (#[trigger] final(labels)@[i]) as int == relabel(
                old(labels)@.map_values(|x: usize| x as int),
                from as int,
                to as int,
            )[i],
{
    let ghost start = labels@;
    let len = labels.len();
    let mut i: usize = 0;
    while i < len
        invariant
            len == labels@.len(),
            start.len() == len,
            0 <= i <= len,
            forall|j: int| 0 <= j < i ==> (#[trigger] labels@[j]) == if start[j] == from { to } else { start[j] },
            forall|j: int| i <= j < len ==> (#[trigger] labels@[j]) == start[j],
        decreases len - i,
    {
        if labels[i] == from {
            labels.set(i, to);
        }
        i = i + 1;
    }
}

/// Tells whether `edges` form a tree spanning the nodes `0..n`.
pub fn check_spanning_tree(n: usize, edges: &Vec<(usize, usize)>) -> (r: bool)
    ensures
        r == is_spanning_tree(n as nat, int_edges(edges@)),
{
    let ghost es = int_edges(edges@);
    let m = edges.len();
    let expected: usize = if n == 0 { 0 } else { n - 1 };
    if m != expected {
        return false;
    }
    let mut k: usize = 0;
    while k < m
        invariant
            m == edges@.len(),
            es == int_edges(edges@),
            es.len() == if n == 0 { 0 } else { n - 1 },
            0 <= k <= m,
            forall|i: int| 0 <= i < k ==> 0 <= #[trigger] es[i].0 < n && 0 <= es[i].1 < n,
        decreases m - k,
    {
        let (u, v) = edges[k];
        assert(es[k as int] == (u as int, v as int));
        if u >= n || v >= n {
            assert(!edges_in_range(n as nat, es));
            return false;
        }
        k = k + 1;
    }
    assert(edges_in_range(n as nat, es));
    let mut labels: Vec<usize> = Vec::new();
    let mut i: usize = 0;
    while i < n
        invariant
            0 <= i <= n,
            labels@.len() == i,
            forall|j: int| 0 <= j < i ==> (#[trigger] labels@[j]) as int == j,
        decreases n - i,
    {
        labels.push(i);
        i = i + 1;
    }
    proof {
        assert(labels@.map_values(|x: usize| x as int) =~= components(n as nat, es, 0));
    }
    k = 0;
    while k < m
        invariant
            m == edges@.len(),
            es == int_edges(edges@),
            0 <= k <= m,
            edges_in_range(n as nat, es),
            es.len() == if n == 0 { 0 } else { n - 1 },
            labels@.len() == n,
            labels@.map_values(|x: usize| x as int) == components(n as nat, es, k as nat),
            forall|j: int| 0 <= j < k ==> #[trigger] components(n as nat, es, j as nat)[es[j].0]
                != components(n as nat, es, j as nat)[es[j].1],
        decreases m - k,
    {
        let (u, v) = edges[k];
        assert(es[k as int] == (u as int, v as int));
        let lu = labels[u];
        let lv = labels[v];
        proof {
            lemma_components_len(n as nat, es, k as nat);
            assert(components(n as nat, es, k as nat)[u as int] == lu as int);
            assert(components(n as nat, es, k as nat)[v as int] == lv as int);
        }
        if lu == lv {
            let ghost kk: int = k as int;
            assert(components(n as nat, es, kk as nat)[es[kk].0] == components(
                n as nat,
                es,
                kk as nat,
            )[es[kk].1]);
            assert(0 <= kk < es.len());
            assert(!acyclic(n as nat, es));
            return false;
        }
        let ghost before = labels@;
        relabel_in_place(&mut labels, lv, lu);
        proof {
            assert(labels@.map_values(|x: usize| x as int) =~= components(n as nat, es, (k + 1) as nat));
        }
        k = k + 1;
    }
    assert(acyclic(n as nat, es));
    if n == 0 {
        return true;
    }
    let root = labels[0];
    let mut i: usize = 0;
    while i < n
        invariant
            0 <= i <= n,
            labels@.len() == n,
            m == es.len(),
            es == int_edges(edges@),
            es.len() == if n == 0 { 0 } else { n - 1 },
            edges_in_range(n as nat, es),
            acyclic(n as nat, es),
            labels@.map_values(|x: usize| x as int) == components(n as nat, es, m as nat),
            root == labels@[0],
            forall|j: int| 0 <= j < i ==> #[trigger] labels@[j] == root,
        decreases n - i,
    {
        if labels[i] != root {
            assert(es.len() == m);
            assert(labels@.map_values(|x: usize| x as int)[i as int] == labels@[i as int] as int);
            assert(labels@.map_values(|x: usize| x as int)[0] == root as int);
            assert(components(n as nat, es, es.len())[i as int] != components(n as nat, es, es.len())[0]);
            assert(!connected(n as nat, es));
            return false;
        }
        i = i + 1;
    }
    assert(connected(n as nat, es)) by {
        assert forall|v: int| 0 <= v < n implies #[trigger] components(n as nat, es, es.len())[v]
            == components(n as nat, es, es.len())[0] by {
            assert(labels@[v] == root);
        }
    }
    true
}

} // verus!
