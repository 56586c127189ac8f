//! Disjoint sets, and which ids a list of edges links.

use vstd::prelude::*;

verus! {

/// Sets of positions, each held together by a root.
pub struct Sets {
    parent: Vec<usize>,
    root: Ghost<Seq<int>>,
    height: Ghost<Seq<int>>,
}

impl Sets {
    /// The root of every position.
    pub closed spec fn roots(&self) -> Seq<int> {
        self.root@
    }

    pub closed spec fn well_formed(&self) -> bool {
        &&& self.root@.len() == self.parent@.len()
        &&& self.height@.len() == self.parent@.len()
        &&& forall|x: int|
            0 <= x < self.parent@.len() ==> #[trigger] hangs(
                self.parent@,
                self.root@,
                self.height@,
                x,
            )
    }

    pub fn new(n: usize) -> (r: Self)
        ensures
            r.well_formed(),
            r.roots().len() == n,
            forall|x: int| 0 <= x < n ==> #[trigger] r.roots()[x] == x,
    {
        let mut parent: Vec<usize> = Vec::new();
        let mut i: usize = 0;
        while i < n
            invariant
                i <= n,
                parent@.len() == i,
                forall|x: int| 0 <= x < i ==> #[trigger] parent@[x] == x,
            decreases n - i,
        {
            parent.push(i);
            i += 1;
        }
        let ghost root = Seq::new(n as nat, |x: int| x);
        let ghost height = Seq::new(n as nat, |x: int| 0int);
        let r = Sets { parent, root: Ghost(root), height: Ghost(height) };
        assert forall|x: int| 0 <= x < n implies #[trigger] hangs(r.parent@, root, height, x) by {
            assert(r.parent@[x] == x);
        }
        r
    }
}

/// The links of one position: its parent hangs from the same root and stands
/// higher, unless it is the root itself.
spec fn hangs(parent: Seq<usize>, root: Seq<int>, height: Seq<int>, x: int) -> bool {
    &&& 0 <= parent[x] < parent.len()
    &&& 0 <= root[x] < parent.len()
    &&& parent[root[x]] == root[x]
    &&& root[root[x]] == root[x]
    &&& root[parent[x] as int] == root[x]
    &&& parent[x] == x ==> root[x] == x
    &&& parent[x] != x ==> height[parent[x] as int] > height[x]
    &&& height[x] <= height[root[x]]
}

/// The root of `x`, halving the way to it.
pub fn uf_find(sets: &mut Sets, x: usize) -> (r: usize)
    requires
        old(sets).well_formed(),
        x < old(sets).roots().len(),
    ensures
        final(sets).well_formed(),
        final(sets).roots() == old(sets).roots(),
        r == old(sets).roots()[x as int],
        r < old(sets).roots().len(),
{
    let ghost root = sets.root@;
    let ghost height = sets.height@;
    let ghost n = sets.parent@.len();
    let mut at: usize = x;
    assert(hangs(sets.parent@, root, height, at as int));
    while sets.parent[at] != at
        invariant
            sets.well_formed(),
            sets.root@ == root,
            sets.height@ == height,
            sets.parent@.len() == n,
            root.len() == n,
            at < n,
            hangs(sets.parent@, root, height, at as int),
            root[at as int] == root[x as int],
            x < n,
        decreases height[root[x as int]] - height[at as int],
    {
        let p: usize = sets.parent[at];
        assert(hangs(sets.parent@, root, height, p as int));
        let pp: usize = sets.parent[p];
        assert(hangs(sets.parent@, root, height, pp as int));
        let ghost before = sets.parent@;
        assert(root[at as int] != at) by {
            if root[at as int] == at {
                assert(before[root[at as int]] == root[at as int]);
            }
        }
        sets.parent.set(at, pp);
        proof {
            assert(sets.parent@ == before.update(at as int, pp));
            assert forall|y: int| 0 <= y < n implies #[trigger] hangs(
                sets.parent@,
                root,
                height,
                y,
            ) by {
                assert(hangs(before, root, height, y));
                assert(root[y] != at) by {
                    if root[y] == at {
                        assert(before[root[y]] == root[y]);
                    }
                }
                if y == at {
                    assert(height[pp as int] >= height[p as int]);
                }
            }
            assert(hangs(sets.parent@, root, height, pp as int));
        }
        at = pp;
    }
    at
}

/// Joins the set of `b` to that of `a`.
pub fn uf_union(sets: &mut Sets, a: usize, b: usize)
    requires
        old(sets).well_formed(),
        a < old(sets).roots().len(),
        b < old(sets).roots().len(),
    ensures
        final(sets).well_formed(),
        final(sets).roots().len() == old(sets).roots().len(),
        forall|x: int|
            0 <= x < old(sets).roots().len() ==> #[trigger] final(sets).roots()[x] == if old(
                sets,
            ).roots()[x] == old(sets).roots()[b as int] {
                old(sets).roots()[a as int]
            } else {
                old(sets).roots()[x]
            },
{
    let ra: usize = uf_find(sets, a);
    let rb: usize = uf_find(sets, b);
    if ra != rb {
        let ghost root = sets.root@;
        let ghost height = sets.height@;
        let ghost parent = sets.parent@;
        let ghost n = parent.len();
        proof {
            assert(hangs(parent, root, height, a as int));
            assert(hangs(parent, root, height, b as int));
            assert(hangs(parent, root, height, ra as int));
            assert(hangs(parent, root, height, rb as int));
        }
        let ghost shift = if height[rb as int] - height[ra as int] >= 0 {
            height[rb as int] - height[ra as int] + 1
        } else {
            0
        };
        let ghost root2 = Seq::new(
            n,
            |x: int|
                if root[x] == rb {
                    ra as int
                } else {
                    root[x]
                },
        );
        let ghost height2 = Seq::new(
            n,
            |x: int|
                if root[x] == ra {
                    height[x] + shift
                } else {
                    height[x]
                },
        );
        sets.parent.set(rb, ra);
        sets.root = Ghost(root2);
        sets.height = Ghost(height2);
        proof {
            assert(sets.parent@ == parent.update(rb as int, ra));
            assert forall|x: int| 0 <= x < n implies #[trigger] hangs(
                sets.parent@,
                root2,
                height2,
                x,
            ) by {
                assert(hangs(parent, root, height, x));
                assert(hangs(parent, root, height, parent[x] as int));
                assert(hangs(parent, root, height, root[x]));
            }
        }
    }
}

/// An edge joins the two ids.
pub open spec fn edge_between(edges: Seq<(i32, i32)>, e: int, a: i32, b: i32) -> bool {
    edges[e] == (a, b) || edges[e] == (b, a)
}

/// One of the first `n` edges joins two ids of the group.
pub open spec fn one_edge(ids: Seq<i32>, edges: Seq<(i32, i32)>, n: int, a: i32, b: i32) -> bool {
    &&& ids.contains(a)
    &&& ids.contains(b)
    &&& exists|e: int| 0 <= e < n && #[trigger] edge_between(edges, e, a, b)
}

/// A chain of ids of the group, each joined to the next by one of the first `n`
/// edges.
pub open spec fn chain(ids: Seq<i32>, edges: Seq<(i32, i32)>, n: int, p: Seq<i32>) -> bool {
    &&& p.len() > 0
    &&& ids.contains(p[0])
    &&& forall|i: int| 0 < i < p.len() ==> one_edge(ids, edges, n, p[i - 1], #[trigger] p[i])
}

/// A chain over the first `n` edges leads from `a` to `b`.
pub open spec fn linked(ids: Seq<i32>, edges: Seq<(i32, i32)>, n: int, a: i32, b: i32) -> bool {
    exists|p: Seq<i32>| #[trigger] chain(ids, edges, n, p) && p[0] == a && p.last() == b
}

proof fn lemma_linked_self(ids: Seq<i32>, edges: Seq<(i32, i32)>, n: int, a: i32)
    requires
        ids.contains(a),
    ensures
        linked(ids, edges, n, a, a),
{
    let p = seq![a];
    assert(chain(ids, edges, n, p));
    assert(p[0] == a && p.last() == a);
}

proof fn lemma_linked_step(ids: Seq<i32>, edges: Seq<(i32, i32)>, n: int, a: i32, b: i32, c: i32)
    requires
        linked(ids, edges, n, a, b),
        one_edge(ids, edges, n, b, c),
    ensures
        linked(ids, edges, n, a, c),
{
    let p = choose|p: Seq<i32>| #[trigger] chain(ids, edges, n, p) && p[0] == a && p.last() == b;
    let q = p.push(c);
    assert forall|i: int| 0 < i < q.len() implies one_edge(
        ids,
        edges,
        n,
        q[i - 1],
        #[trigger] q[i],
    ) by {
        if i < p.len() {
            assert(one_edge(ids, edges, n, p[i - 1], p[i]));
        }
    }
    assert(chain(ids, edges, n, q));
    assert(q[0] == a && q.last() == c);
}

proof fn lemma_linked_join(
    ids: Seq<i32>,
    edges: Seq<(i32, i32)>,
    n: int,
    a: i32,
    b: i32,
    q: Seq<i32>,
)
    requires
        linked(ids, edges, n, a, b),
        chain(ids, edges, n, q),
        q[0] == b,
    ensures
        linked(ids, edges, n, a, q.last()),
    decreases q.len(),
{
    if q.len() > 1 {
        let r = q.drop_last();
        assert forall|i: int| 0 < i < r.len() implies one_edge(
            ids,
            edges,
            n,
            r[i - 1],
            #[trigger] r[i],
        ) by {
            assert(one_edge(ids, edges, n, q[i - 1], q[i]));
        }
        lemma_linked_join(ids, edges, n, a, b, r);
        assert(one_edge(ids, edges, n, q[q.len() - 2], q[q.len() - 1]));
        lemma_linked_step(ids, edges, n, a, r.last(), q.last());
    }
}

/// Links can be followed one after the other.
pub proof fn lemma_linked_through(
    ids: Seq<i32>,
    edges: Seq<(i32, i32)>,
    n: int,
    a: i32,
    b: i32,
    c: i32,
)
    requires
        linked(ids, edges, n, a, b),
        linked(ids, edges, n, b, c),
    ensures
        linked(ids, edges, n, a, c),
{
    let q = choose|p: Seq<i32>| #[trigger] chain(ids, edges, n, p) && p[0] == b && p.last() == c;
    lemma_linked_join(ids, edges, n, a, b, q);
}

proof fn lemma_one_edge_back(ids: Seq<i32>, edges: Seq<(i32, i32)>, n: int, a: i32, b: i32)
    requires
        one_edge(ids, edges, n, a, b),
    ensures
        one_edge(ids, edges, n, b, a),
{
    let e = choose|e: int| 0 <= e < n && #[trigger] edge_between(edges, e, a, b);
    assert(edge_between(edges, e, b, a));
}

proof fn lemma_chain_back(ids: Seq<i32>, edges: Seq<(i32, i32)>, n: int, q: Seq<i32>)
    requires
        chain(ids, edges, n, q),
    ensures
        linked(ids, edges, n, q.last(), q[0]),
    decreases q.len(),
{
    if q.len() == 1 {
        lemma_linked_self(ids, edges, n, q[0]);
    } else {
        let r = q.drop_last();
        assert forall|i: int| 0 < i < r.len() implies one_edge(
            ids,
            edges,
            n,
            r[i - 1],
            #[trigger] r[i],
        ) by {
            assert(one_edge(ids, edges, n, q[i - 1], q[i]));
        }
        lemma_chain_back(ids, edges, n, r);
        assert(one_edge(ids, edges, n, q[q.len() - 2], q[q.len() - 1]));
        lemma_one_edge_back(ids, edges, n, r.last(), q.last());
        lemma_linked_self(ids, edges, n, q.last());
        lemma_linked_step(ids, edges, n, q.last(), q.last(), r.last());
        lemma_linked_through(ids, edges, n, q.last(), r.last(), q[0]);
    }
}

proof fn lemma_more_edges(ids: Seq<i32>, edges: Seq<(i32, i32)>, n: int, m: int, a: i32, b: i32)
    requires
        linked(ids, edges, n, a, b),
        n <= m,
    ensures
        linked(ids, edges, m, a, b),
{
    let p = choose|p: Seq<i32>| #[trigger] chain(ids, edges, n, p) && p[0] == a && p.last() == b;
    assert forall|i: int| 0 < i < p.len() implies one_edge(
        ids,
        edges,
        m,
        p[i - 1],
        #[trigger] p[i],
    ) by {
        assert(one_edge(ids, edges, n, p[i - 1], p[i]));
        let e = choose|e: int| 0 <= e < n && #[trigger] edge_between(edges, e, p[i - 1], p[i]);
        assert(edge_between(edges, e, p[i - 1], p[i]));
    }
    assert(chain(ids, edges, m, p));
}

/// `p` is the first position of its id.
pub open spec fn is_first(ids: Seq<i32>, p: int) -> bool {
    0 <= p < ids.len() && forall|q: int| 0 <= q < p ==> #[trigger] ids[q] != ids[p]
}

fn position_of(ids: &Vec<i32>, id: i32) -> (r: Option<usize>)
    ensures
        match r {
            Some(p) => is_first(ids@, p as int) && ids@[p as int] == id,
            None => !ids@.contains(id),
        },
{
    let mut i: usize = 0;
    while i < ids.len()
        invariant
            i <= ids@.len(),
            forall|q: int| 0 <= q < i ==> #[trigger] ids@[q] != id,
        decreases ids@.len() - i,
    {
        if ids[i] == id {
            return Some(i);
        }
        i += 1;
    }
    None
}

/// Roots agree exactly on the ids that the first `n` edges link.
spec fn roots_match(
    ids: Seq<i32>,
    edges: Seq<(i32, i32)>,
    n: int,
    roots: Seq<int>,
) -> bool {
    forall|p: int, q: int|
        #![trigger roots[p], roots[q]]
        is_first(ids, p) && is_first(ids, q) ==> (roots[p] == roots[q] <==> linked(
            ids,
            edges,
            n,
            ids[p],
            ids[q],
        ))
}

proof fn lemma_first_of(ids: Seq<i32>, id: i32) -> (p: int)
    requires
        ids.contains(id),
    ensures
        is_first(ids, p),
        ids[p] == id,
{
    let q = choose|q: int| 0 <= q < ids.len() && ids[q] == id;
    lemma_first_below(ids, q)
}

proof fn lemma_first_below(ids: Seq<i32>, q: int) -> (p: int)
    requires
        0 <= q < ids.len(),
    ensures
        is_first(ids, p),
        ids[p] == ids[q],
    decreases q,
{
    if forall|r: int| 0 <= r < q ==> #[trigger] ids[r] != ids[q] {
        q
    } else {
        let r = choose|r: int| 0 <= r < q && #[trigger] ids[r] == ids[q];
        lemma_first_below(ids, r)
    }
}

/// If roots agree across every single edge, they agree along a chain.
proof fn lemma_chain_roots(
    ids: Seq<i32>,
    edges: Seq<(i32, i32)>,
    n: int,
    roots: Seq<int>,
    c: Seq<i32>,
    p: int,
    q: int,
)
    requires
        chain(ids, edges, n, c),
        is_first(ids, p),
        is_first(ids, q),
        ids[p] == c[0],
        ids[q] == c.last(),
        forall|x: int, y: int|
            #![trigger roots[x], roots[y]]
            is_first(ids, x) && is_first(ids, y) && one_edge(ids, edges, n, ids[x], ids[y])
                ==> roots[x] == roots[y],
    ensures
        roots[p] == roots[q],
    decreases c.len(),
{
    if c.len() == 1 {
        if p < q {
            assert(ids[p] != ids[q]);
        } else if q < p {
            assert(ids[q] != ids[p]);
        }
    } else {
        let r = c.drop_last();
        assert forall|i: int| 0 < i < r.len() implies one_edge(
            ids,
            edges,
            n,
            r[i - 1],
            #[trigger] r[i],
        ) by {
            assert(one_edge(ids, edges, n, c[i - 1], c[i]));
        }
        assert(one_edge(ids, edges, n, c[c.len() - 2], c[c.len() - 1]));
        let m = lemma_first_of(ids, r.last());
        lemma_chain_roots(ids, edges, n, roots, r, p, m);
        assert(roots[m] == roots[q]);
    }
}

/// One more edge of the group keeps the roots in step, after its sets were joined.
proof fn lemma_edge_added(
    ids: Seq<i32>,
    edges: Seq<(i32, i32)>,
    n: int,
    before: Seq<int>,
    after: Seq<int>,
    a: int,
    b: int,
)
    requires
        0 <= n < edges.len(),
        roots_match(ids, edges, n, before),
        is_first(ids, a),
        is_first(ids, b),
        edges[n] == (ids[a], ids[b]),
        forall|x: int|
            0 <= x < ids.len() ==> #[trigger] after[x] == if before[x] == before[b] {
                before[a]
            } else {
                before[x]
            },
    ensures
        roots_match(ids, edges, n + 1, after),
{
    let to = n + 1;
    assert(edge_between(edges, n, ids[a], ids[b]));
    assert(one_edge(ids, edges, to, ids[a], ids[b]));
    lemma_one_edge_back(ids, edges, to, ids[a], ids[b]);
    lemma_linked_self(ids, edges, to, ids[a]);
    lemma_linked_self(ids, edges, to, ids[b]);
    lemma_linked_step(ids, edges, to, ids[a], ids[a], ids[b]);
    lemma_linked_step(ids, edges, to, ids[b], ids[b], ids[a]);
    assert forall|x: int, y: int|
        #![trigger after[x], after[y]]
        is_first(ids, x) && is_first(ids, y) && one_edge(
            ids,
            edges,
            to,
            ids[x],
            ids[y],
        ) implies after[x] == after[y] by {
        let e = choose|e: int| 0 <= e < to && #[trigger] edge_between(edges, e, ids[x], ids[y]);
        if e < n {
            assert(one_edge(ids, edges, n, ids[x], ids[y])) by {
                assert(edge_between(edges, e, ids[x], ids[y]));
            }
            lemma_linked_self(ids, edges, n, ids[x]);
            lemma_linked_step(ids, edges, n, ids[x], ids[x], ids[y]);
            assert(before[x] == before[y]);
        } else {
            if ids[x] == ids[a] {
                lemma_same_first(ids, x, a);
                lemma_same_first(ids, y, b);
            } else {
                lemma_same_first(ids, x, b);
                lemma_same_first(ids, y, a);
            }
        }
    }
    assert forall|p: int, q: int|
        #![trigger after[p], after[q]]
        is_first(ids, p) && is_first(ids, q) implies (after[p] == after[q] <==> linked(
        ids,
        edges,
        to,
        ids[p],
        ids[q],
    )) by {
        if linked(ids, edges, to, ids[p], ids[q]) {
            let c = choose|c: Seq<i32>| #[trigger]
                chain(ids, edges, to, c) && c[0] == ids[p] && c.last() == ids[q];
            lemma_chain_roots(ids, edges, to, after, c, p, q);
        }
        if after[p] == after[q] {
            if before[p] == before[q] {
                lemma_more_edges(ids, edges, n, to, ids[p], ids[q]);
            } else if before[p] == before[b] {
                assert(before[q] == before[a]);
                lemma_more_edges(ids, edges, n, to, ids[p], ids[b]);
                lemma_more_edges(ids, edges, n, to, ids[a], ids[q]);
                lemma_linked_through(ids, edges, to, ids[p], ids[b], ids[a]);
                lemma_linked_through(ids, edges, to, ids[p], ids[a], ids[q]);
            } else {
                assert(before[q] == before[b] && before[p] == before[a]);
                lemma_more_edges(ids, edges, n, to, ids[p], ids[a]);
                lemma_more_edges(ids, edges, n, to, ids[b], ids[q]);
                lemma_linked_through(ids, edges, to, ids[p], ids[a], ids[b]);
                lemma_linked_through(ids, edges, to, ids[p], ids[b], ids[q]);
            }
        }
    }
}

proof fn lemma_same_first(ids: Seq<i32>, p: int, q: int)
    requires
        is_first(ids, p),
        is_first(ids, q),
        ids[p] == ids[q],
    ensures
        p == q,
{
    if p < q {
        assert(ids[p] != ids[q]);
    } else if q < p {
        assert(ids[q] != ids[p]);
    }
}

/// An edge that leaves the group links nothing in it.
proof fn lemma_edge_outside(ids: Seq<i32>, edges: Seq<(i32, i32)>, n: int, roots: Seq<int>)
    requires
        0 <= n < edges.len(),
        roots_match(ids, edges, n, roots),
        !ids.contains(edges[n].0) || !ids.contains(edges[n].1),
    ensures
        roots_match(ids, edges, n + 1, roots),
{
    let to = n + 1;
    assert forall|p: int, q: int|
        #![trigger roots[p], roots[q]]
        is_first(ids, p) && is_first(ids, q) implies (roots[p] == roots[q] <==> linked(
        ids,
        edges,
        to,
        ids[p],
        ids[q],
    )) by {
        if roots[p] == roots[q] {
            lemma_more_edges(ids, edges, n, to, ids[p], ids[q]);
        }
        if linked(ids, edges, to, ids[p], ids[q]) {
            let c = choose|c: Seq<i32>| #[trigger]
                chain(ids, edges, to, c) && c[0] == ids[p] && c.last() == ids[q];
            assert forall|i: int| 0 < i < c.len() implies one_edge(
                ids,
                edges,
                n,
                c[i - 1],
                #[trigger] c[i],
            ) by {
                assert(one_edge(ids, edges, to, c[i - 1], c[i]));
                let e = choose|e: int|
                    0 <= e < to && #[trigger] edge_between(edges, e, c[i - 1], c[i]);
                assert(e < n);
                assert(edge_between(edges, e, c[i - 1], c[i]));
            }
            assert(chain(ids, edges, n, c));
        }
    }
}

/// How many of the first `m` ids all edges link to the first one.
pub open spec fn linked_count(ids: Seq<i32>, edges: Seq<(i32, i32)>, m: nat) -> int
    decreases m,
{
    if m == 0 {
        0
    } else {
        linked_count(ids, edges, (m - 1) as nat) + if linked(
            ids,
            edges,
            edges.len() as int,
            ids[0],
            ids[m - 1],
        ) {
            1int
        } else {
            0
        }
    }
}

/// Counts the ids that the edges link to the first one.
pub fn count_linked(ids: &Vec<i32>, edges: &Vec<(i32, i32)>) -> (r: usize)
    requires
        ids@.len() > 0,
    ensures
        r == linked_count(ids@, edges@, ids@.len()),
{
    let mut sets: Sets = Sets::new(ids.len());
    proof {
        assert forall|p: int, q: int|
            #![trigger sets.roots()[p], sets.roots()[q]]
            is_first(ids@, p) && is_first(ids@, q) implies (sets.roots()[p] == sets.roots()[q]
            <==> linked(ids@, edges@, 0, ids@[p], ids@[q])) by {
            if p == q {
                lemma_linked_self(ids@, edges@, 0, ids@[p]);
            }
            if linked(ids@, edges@, 0, ids@[p], ids@[q]) {
                let c = choose|c: Seq<i32>| #[trigger]
                    chain(ids@, edges@, 0, c) && c[0] == ids@[p] && c.last() == ids@[q];
                if c.len() > 1 {
                    assert(one_edge(ids@, edges@, 0, c[0], c[1]));
                }
                lemma_same_first(ids@, p, q);
            }
        }
    }
    let mut e: usize = 0;
    while e < edges.len()
        invariant
            e <= edges@.len(),
            sets.well_formed(),
            sets.roots().len() == ids@.len(),
            roots_match(ids@, edges@, e as int, sets.roots()),
        decreases edges@.len() - e,
    {
        let edge: (i32, i32) = edges[e];
        let ghost before = sets.roots();
        match (position_of(ids, edge.0), position_of(ids, edge.1)) {
            (Some(a), Some(b)) => {
                uf_union(&mut sets, a, b);
                proof {
                    lemma_edge_added(
                        ids@,
                        edges@,
                        e as int,
                        before,
                        sets.roots(),
                        a as int,
                        b as int,
                    );
                }
            },
            _ => {
                proof {
                    lemma_edge_outside(ids@, edges@, e as int, before);
                }
            },
        }
        e += 1;
    }
    let ghost roots = sets.roots();
    let root: usize = uf_find(&mut sets, 0);
    let mut r: usize = 0;
    let mut i: usize = 0;
    while i < ids.len()
        invariant
            i <= ids@.len(),
            r <= i,
            ids@.len() > 0,
            sets.well_formed(),
            sets.roots() == roots,
            roots.len() == ids@.len(),
            root == roots[0],
            roots_match(ids@, edges@, edges@.len() as int, roots),
            r == linked_count(ids@, edges@, i as nat),
        decreases ids@.len() - i,
    {
        match position_of(ids, ids[i]) {
            Some(p) => {
                proof {
                    assert(is_first(ids@, 0));
                    assert(is_first(ids@, p as int));
                    assert(roots[0] == roots[p as int] <==> linked(
                        ids@,
                        edges@,
                        edges@.len() as int,
                        ids@[0],
                        ids@[p as int],
                    ));
                }
                if uf_find(&mut sets, p) == root {
                    r += 1;
                }
            },
            None => {
                assert(ids@.contains(ids@[i as int]));
            },
        }
        i += 1;
    }
    r
}

} // verus!
