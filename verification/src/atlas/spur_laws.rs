//! What a finished road network is like: who it joins, and which spurs it has.

use crate::atlas::features::{NodeKind, RoadClass};
use crate::atlas::grid::lemma_distinct_len;
use crate::atlas::road_laws::law_one_way;
use crate::atlas::road_network::{
    backbone_tried, group_tried, is_mass_list, is_mass_members, laid_count, mass_tried, pair_laid,
    pair_weight, roads_built, spur_tried, spurs_flat, spurs_tried, way_found, Attempt, Group,
    RoadPlan, RoadState,
};
use crate::atlas::road_search::RoadView;
use crate::atlas::roads::RoadsView;
use crate::atlas::types::GraphNode;
use vstd::prelude::*;

verus! {

/// How many secondary roads were laid that start from a node.
pub open spec fn spurs_from(roads: Seq<Attempt>, x: GraphNode) -> int
    decreases roads.len(),
{
    if roads.len() == 0 {
        0
    } else {
        spurs_from(roads.drop_last(), x) + if roads.last().tried && roads.last().path.len() >= 2
            && roads.last().class == RoadClass::Secondary && roads.last().a == x {
            1int
        } else {
            0int
        }
    }
}

/// A road was laid between two nodes, of whatever class and from whichever side.
pub open spec fn joined(roads: Seq<Attempt>, x: GraphNode, y: GraphNode) -> bool {
    exists|i: int|
        0 <= i < roads.len() && (#[trigger] roads[i]).tried && roads[i].path.len() >= 2 && ((
        roads[i].a.id == x.id && roads[i].b.id == y.id) || (roads[i].a.id == y.id && roads[i].b.id
            == x.id))
}

/// There is no way for a road from one node to another.
pub open spec fn no_way(f: RoadView, x: GraphNode, y: GraphNode) -> bool {
    forall|path: Seq<i32>| #[trigger] way_found(f, x, y, path) ==> path.len() < 2
}

proof fn lemma_spurs_concat(a: Seq<Attempt>, b: Seq<Attempt>, x: GraphNode)
    ensures
        spurs_from(a + b, x) == spurs_from(a, x) + spurs_from(b, x),
        spurs_from(a, x) >= 0,
    decreases b.len(), a.len(),
{
    if b.len() == 0 {
        assert(a + b =~= a);
        if a.len() > 0 {
            lemma_spurs_concat(a.drop_last(), b, x);
            assert(a.drop_last() + b =~= a.drop_last());
        }
    } else {
        lemma_spurs_concat(a, b.drop_last(), x);
        assert((a + b).drop_last() =~= a + b.drop_last());
        assert((a + b).last() == b.last());
    }
}

proof fn lemma_no_spurs(roads: Seq<Attempt>, x: GraphNode)
    requires
        forall|i: int|
            0 <= i < roads.len() ==> (#[trigger] roads[i]).class != RoadClass::Secondary
                || roads[i].a != x,
    ensures
        spurs_from(roads, x) == 0,
    decreases roads.len(),
{
    if roads.len() > 0 {
        let rest = roads.drop_last();
        assert forall|i: int| 0 <= i < rest.len() implies (#[trigger] rest[i]).class
            != RoadClass::Secondary || rest[i].a != x by {
            assert(rest[i] == roads[i]);
        }
        lemma_no_spurs(rest, x);
        assert(roads.last() == roads[roads.len() - 1]);
    }
}

proof fn lemma_all_spurs(roads: Seq<Attempt>, x: GraphNode)
    requires
        forall|i: int|
            0 <= i < roads.len() ==> (#[trigger] roads[i]).class == RoadClass::Secondary
                && roads[i].a == x,
    ensures
        spurs_from(roads, x) == laid_count(roads),
    decreases roads.len(),
{
    if roads.len() > 0 {
        let rest = roads.drop_last();
        assert forall|i: int| 0 <= i < rest.len() implies (#[trigger] rest[i]).class
            == RoadClass::Secondary && rest[i].a == x by {
            assert(rest[i] == roads[i]);
        }
        lemma_all_spurs(rest, x);
        assert(roads.last() == roads[roads.len() - 1]);
    }
}

/// In one of the first `n` lists.
pub open spec fn in_lists(s: Seq<Seq<Attempt>>, n: int, e: Attempt) -> bool {
    exists|i: int, p: int| 0 <= i < n && 0 <= p < s[i].len() && #[trigger] s[i][p] == e
}

/// What is in one list is in all of them together, and nothing else.
pub proof fn lemma_flat_holds(s: Seq<Seq<Attempt>>, n: nat)
    requires
        n <= s.len(),
    ensures
        forall|i: int, p: int|
            0 <= i < n && 0 <= p < s[i].len() ==> spurs_flat(s, n).contains(#[trigger] s[i][p]),
        forall|k: int|
            0 <= k < spurs_flat(s, n).len() ==> in_lists(
                s,
                n as int,
                #[trigger] spurs_flat(s, n)[k],
            ),
    decreases n,
{
    if n > 0 {
        let m = (n - 1) as nat;
        lemma_flat_holds(s, m);
        let before = spurs_flat(s, m);
        let now = spurs_flat(s, n);
        assert forall|i: int, p: int| 0 <= i < n && 0 <= p < s[i].len() implies now.contains(
            #[trigger] s[i][p],
        ) by {
            if i < n - 1 {
                let k = choose|k: int| 0 <= k < before.len() && before[k] == s[i][p];
                assert(now[k] == s[i][p]);
            } else {
                assert(now[before.len() + p] == s[i][p]);
            }
        }
        assert forall|k: int| 0 <= k < now.len() implies in_lists(
            s,
            n as int,
            #[trigger] now[k],
        ) by {
            if k < before.len() {
                assert(before[k] == now[k]);
                assert(in_lists(s, m as int, before[k]));
                let (i, p) = choose|i: int, p: int|
                    0 <= i < m && 0 <= p < s[i].len() && #[trigger] s[i][p] == before[k];
                assert(s[i][p] == now[k]);
            } else {
                assert(s[n - 1][k - before.len()] == now[k]);
            }
        }
    }
}

proof fn lemma_flat_counts(s: Seq<Seq<Attempt>>, n: nat, i: int, x: GraphNode)
    requires
        0 <= i < n <= s.len(),
    ensures
        spurs_from(spurs_flat(s, n), x) >= spurs_from(s[i], x),
    decreases n,
{
    let m = (n - 1) as nat;
    lemma_spurs_concat(spurs_flat(s, m), s[n - 1], x);
    lemma_spurs_concat(s[n - 1], Seq::empty(), x);
    lemma_spurs_concat(spurs_flat(s, m), Seq::empty(), x);
    if i < n - 1 {
        lemma_flat_counts(s, m, i, x);
    }
}

/// A pair joined among some roads is joined among more.
proof fn lemma_joined_grows(
    some: Seq<Attempt>,
    all: Seq<Attempt>,
    x: GraphNode,
    y: GraphNode,
    pair: (i32, i32),
)
    requires
        pair == (if x.id < y.id {
            (x.id, y.id)
        } else {
            (y.id, x.id)
        }),
        pair_laid(some, pair),
        forall|i: int| 0 <= i < some.len() ==> all.contains(#[trigger] some[i]),
    ensures
        joined(all, x, y),
{
    let i = choose|i: int|
        0 <= i < some.len() && (#[trigger] some[i]).laid() && some[i].pair() == pair;
    assert(all.contains(some[i]));
    let k = choose|k: int| 0 <= k < all.len() && all[k] == some[i];
    assert(all[k].laid() && all[k].pair() == pair);
}

/// What the spurs of one member come to.
proof fn lemma_member_spurs(
    plan: RoadPlan,
    g: Group,
    i: int,
    before: Seq<Attempt>,
    spurs: Seq<Attempt>,
    all: Seq<Attempt>,
)
    requires
        0 <= i < g.members.len() <= usize::MAX,
        spurs_tried(plan, g, i, before, spurs),
        forall|k: int| 0 <= k < before.len() ==> all.contains(#[trigger] before[k]),
        forall|k: int| 0 <= k < spurs.len() ==> all.contains(#[trigger] spurs[k]),
    ensures
        g.node(i).kind == NodeKind::Settlement ==> spurs.len() == 0,
        forall|k: int|
            0 <= k < spurs.len() ==> (#[trigger] spurs[k]).class == RoadClass::Secondary
                && spurs[k].a == g.node(i),
        g.node(i).kind != NodeKind::Settlement ==> spurs_from(spurs, g.node(i)) >= 2
            || forall|j: int|
            0 <= j < g.members.len() && j != i ==> joined(all, g.node(i), #[trigger] g.node(j))
                || no_way(plan.f, g.node(i), g.node(j)),
        spurs_from(spurs, g.node(i)) <= 2,
        forall|k: int, j: int|
            #![trigger spurs[k], g.node(j)]
            0 <= k < spurs.len() && spurs[k].laid() && 0 <= j < g.members.len() && j != i
                && pair_weight(g.cells, g.node(i), g.node(j)) < pair_weight(
                g.cells,
                g.node(i),
                spurs[k].b,
            ) ==> joined(all, g.node(i), g.node(j)) || no_way(plan.f, g.node(i), g.node(j)),
{
    let x = g.node(i);
    if x.kind == NodeKind::Settlement {
        assert(spurs.len() == 0);
    } else {
        let order = choose|order: Seq<usize>|
            {
                &&& #[trigger] g.is_by_nearness(i, order)
                &&& spurs.len() <= order.len()
                &&& spurs.len() == order.len() || laid_count(spurs) >= 2
                &&& forall|p: int|
                    0 <= p < spurs.len() ==> #[trigger] spur_tried(
                        plan,
                        g,
                        i,
                        order,
                        before,
                        spurs,
                        p,
                    )
            };
        assert forall|k: int| 0 <= k < spurs.len() implies (#[trigger] spurs[k]).class
            == RoadClass::Secondary && spurs[k].a == x by {
            assert(spur_tried(plan, g, i, order, before, spurs, k));
        }
        lemma_all_spurs(spurs, x);
        if spurs.len() > 0 {
            let last = spurs.len() - 1;
            assert(spur_tried(plan, g, i, order, before, spurs, last));
            assert(spurs.take(last) =~= spurs.drop_last());
        }
        assert forall|p: int| 0 <= p < spurs.len() implies joined(
            all,
            x,
            #[trigger] g.node(order[p] as int),
        ) || no_way(plan.f, x, g.node(order[p] as int)) by {
            lemma_one_spur(plan, g, i, order, before, spurs, p, all);
        }
        if spurs.len() == order.len() {
            assert forall|j: int| 0 <= j < g.members.len() && j != i implies joined(
                all,
                x,
                #[trigger] g.node(j),
            ) || no_way(plan.f, x, g.node(j)) by {
                assert(order.contains(j as usize));
                let p = choose|p: int| 0 <= p < order.len() && order[p] == j as usize;
                assert(joined(all, x, g.node(order[p] as int)) || no_way(
                    plan.f,
                    x,
                    g.node(order[p] as int),
                ));
            }
        }
        assert forall|k: int, j: int|
            #![trigger spurs[k], g.node(j)]
            0 <= k < spurs.len() && spurs[k].laid() && 0 <= j < g.members.len() && j != i
                && pair_weight(g.cells, x, g.node(j)) < pair_weight(
                g.cells,
                x,
                spurs[k].b,
            ) implies joined(all, x, g.node(j)) || no_way(plan.f, x, g.node(j)) by {
            assert(spur_tried(plan, g, i, order, before, spurs, k));
            assert(order.contains(j as usize));
            let p = choose|p: int| 0 <= p < order.len() && order[p] == j as usize;
            assert(g.weight(i, order[p] as int) < g.weight(i, order[k] as int));
            if p >= k {
                assert(order[k] == order[k] && order[p] == order[p]);
                assert(p == k || g.weight(i, order[k] as int) <= g.weight(i, order[p] as int));
            }
            assert(joined(all, x, g.node(order[p] as int)) || no_way(
                plan.f,
                x,
                g.node(order[p] as int),
            ));
        }
    }
}

/// A spur that came up in its turn found the pair joined, joined it, or found no way.
proof fn lemma_one_spur(
    plan: RoadPlan,
    g: Group,
    i: int,
    order: Seq<usize>,
    before: Seq<Attempt>,
    spurs: Seq<Attempt>,
    p: int,
    all: Seq<Attempt>,
)
    requires
        0 <= p < spurs.len(),
        spur_tried(plan, g, i, order, before, spurs, p),
        forall|k: int| 0 <= k < before.len() ==> all.contains(#[trigger] before[k]),
        forall|k: int| 0 <= k < spurs.len() ==> all.contains(#[trigger] spurs[k]),
    ensures
        joined(all, g.node(i), g.node(order[p] as int)) || no_way(
            plan.f,
            g.node(i),
            g.node(order[p] as int),
        ),
{
    let x = g.node(i);
    let y = g.node(order[p] as int);
    let at = spurs[p];
    if at.laid() {
        assert(all.contains(spurs[p]));
        let k = choose|k: int| 0 <= k < all.len() && all[k] == at;
        assert(all[k].tried && all[k].path.len() >= 2);
    } else if at.tried {
        assert forall|path: Seq<i32>| #[trigger] way_found(plan.f, x, y, path) implies path.len()
            < 2 by {
            law_one_way(plan.f, x, y, path, at.path);
        }
    } else {
        let some = before + spurs.take(p);
        assert forall|k: int| 0 <= k < some.len() implies all.contains(#[trigger] some[k]) by {
            if k < before.len() {
                assert(some[k] == before[k]);
            } else {
                assert(some[k] == spurs[k - before.len()]);
            }
        }
        lemma_joined_grows(some, all, x, y, at.pair());
    }
}

/// What the roads of one group come to, among all roads.
pub open spec fn group_done(plan: RoadPlan, g: Group, roads: Seq<Attempt>, all: Seq<Attempt>)
    -> bool {
    &&& forall|k: int|
        0 <= k < roads.len() ==> {
            &&& (#[trigger] roads[k]).class == RoadClass::Secondary ==> roads[k].a.kind
                != NodeKind::Settlement
            &&& exists|i: int| 0 <= i < g.members.len() && #[trigger] g.node(i) == roads[k].a
        }
    &&& forall|i: int|
        0 <= i < g.members.len() && (#[trigger] g.node(i)).kind != NodeKind::Settlement
            ==> spurs_from(roads, g.node(i)) >= 2 || forall|j: int|
            0 <= j < g.members.len() && j != i ==> joined(all, g.node(i), #[trigger] g.node(j))
                || no_way(plan.f, g.node(i), g.node(j))
    &&& forall|k: int, j: int|
        #![trigger roads[k], g.node(j)]
        0 <= k < roads.len() && roads[k].class == RoadClass::Secondary && roads[k].laid() && 0 <= j
            < g.members.len() && pair_weight(g.cells, roads[k].a, g.node(j)) < pair_weight(
            g.cells,
            roads[k].a,
            roads[k].b,
        ) ==> g.node(j) == roads[k].a || joined(all, roads[k].a, g.node(j)) || no_way(
            plan.f,
            roads[k].a,
            g.node(j),
        )
}

#[verifier::rlimit(40)]
proof fn lemma_group_done(plan: RoadPlan, g: Group, roads: Seq<Attempt>, all: Seq<Attempt>)
    requires
        group_tried(plan, g, roads),
        g.members.len() <= usize::MAX,
        forall|k: int| 0 <= k < roads.len() ==> all.contains(#[trigger] roads[k]),
    ensures
        group_done(plan, g, roads, all),
{
    let (edges, trunk, spurs) = choose|
        edges: Seq<(usize, usize)>,
        trunk: Seq<Attempt>,
        spurs: Seq<Seq<Attempt>>,
    |
        {
            &&& #[trigger] backbone_tried(plan, g, edges, trunk)
            &&& spurs.len() == g.members.len()
            &&& forall|i: int|
                0 <= i < spurs.len() ==> spurs_tried(
                    plan,
                    g,
                    i,
                    trunk + spurs_flat(spurs, i as nat),
                    #[trigger] spurs[i],
                )
            &&& roads == trunk + #[trigger] spurs_flat(spurs, spurs.len())
        };
    let n = spurs.len();
    let flat = spurs_flat(spurs, n);
    lemma_flat_holds(spurs, n);
    assert forall|k: int| 0 <= k < trunk.len() implies all.contains(#[trigger] trunk[k]) by {
        assert(roads[k] == trunk[k]);
    }
    assert forall|i: int, p: int| 0 <= i < n && 0 <= p < spurs[i].len() implies all.contains(
        #[trigger] spurs[i][p],
    ) by {
        assert(flat.contains(spurs[i][p]));
        let k = choose|k: int| 0 <= k < flat.len() && flat[k] == spurs[i][p];
        assert(roads[trunk.len() + k] == spurs[i][p]);
    }
    assert forall|i: int| 0 <= i < n implies #[trigger] member_done(
        plan,
        g,
        i,
        spurs[i],
        all,
    ) by {
        let so_far = trunk + spurs_flat(spurs, i as nat);
        lemma_flat_holds(spurs, i as nat);
        assert forall|k: int| 0 <= k < so_far.len() implies all.contains(#[trigger] so_far[k]) by {
            if k < trunk.len() {
                assert(so_far[k] == trunk[k]);
            } else {
                let e = spurs_flat(spurs, i as nat)[k - trunk.len()];
                let (a, p) = choose|a: int, p: int|
                    0 <= a < i && 0 <= p < spurs[a].len() && #[trigger] spurs[a][p] == e;
                assert(all.contains(spurs[a][p]));
            }
        }
        assert(spurs_tried(plan, g, i, so_far, spurs[i]));
        lemma_member_spurs(plan, g, i, so_far, spurs[i], all);
    }
    assert forall|k: int| 0 <= k < roads.len() implies ({
        &&& (#[trigger] roads[k]).class == RoadClass::Secondary ==> roads[k].a.kind
            != NodeKind::Settlement
        &&& exists|i: int| 0 <= i < g.members.len() && #[trigger] g.node(i) == roads[k].a
    }) by {
        if k < trunk.len() {
            assert(trunk[k].class == RoadClass::Primary);
            let root = choose|root: int| #[trigger]
                g.is_densest(root) && forall|t: int|
                    0 <= t < edges.len() ==> #[trigger] g.cheapest_join(root, edges, t);
            assert(g.cheapest_join(root, edges, k));
            assert(g.node(edges[k].0 as int) == roads[k].a);
        } else {
            let (i, p) = choose|i: int, p: int|
                0 <= i < n && 0 <= p < spurs[i].len() && #[trigger] spurs[i][p] == flat[k
                    - trunk.len()];
            assert(member_done(plan, g, i, spurs[i], all));
            assert(roads[k] == spurs[i][p]);
            assert(g.node(i) == roads[k].a);
        }
    }
    assert forall|i: int|
        0 <= i < g.members.len() && (#[trigger] g.node(i)).kind
            != NodeKind::Settlement implies spurs_from(roads, g.node(i)) >= 2 || forall|j: int|
        0 <= j < g.members.len() && j != i ==> joined(all, g.node(i), #[trigger] g.node(j))
            || no_way(plan.f, g.node(i), g.node(j)) by {
        assert(member_done(plan, g, i, spurs[i], all));
        lemma_flat_counts(spurs, n, i, g.node(i));
        lemma_spurs_concat(trunk, flat, g.node(i));
    }
    assert forall|k: int, j: int|
        #![trigger roads[k], g.node(j)]
        0 <= k < roads.len() && roads[k].class == RoadClass::Secondary && roads[k].laid() && 0 <= j
            < g.members.len() && pair_weight(g.cells, roads[k].a, g.node(j)) < pair_weight(
            g.cells,
            roads[k].a,
            roads[k].b,
        ) implies g.node(j) == roads[k].a || joined(all, roads[k].a, g.node(j)) || no_way(
        plan.f,
        roads[k].a,
        g.node(j),
    ) by {
        if k < trunk.len() {
            assert(trunk[k].class == RoadClass::Primary);
        } else {
            let (i, p) = choose|i: int, p: int|
                0 <= i < n && 0 <= p < spurs[i].len() && #[trigger] spurs[i][p] == flat[k
                    - trunk.len()];
            assert(member_done(plan, g, i, spurs[i], all));
            assert(roads[k] == spurs[i][p]);
            assert(spurs[i][p].laid());
            if j == i {
                assert(g.node(j) == roads[k].a);
            }
        }
    }
}

/// What the spurs of one member come to, among all roads.
spec fn member_done(
    plan: RoadPlan,
    g: Group,
    i: int,
    spurs: Seq<Attempt>,
    all: Seq<Attempt>,
) -> bool {
    &&& g.node(i).kind == NodeKind::Settlement ==> spurs.len() == 0
    &&& forall|k: int|
        0 <= k < spurs.len() ==> (#[trigger] spurs[k]).class == RoadClass::Secondary && spurs[k].a
            == g.node(i)
    &&& g.node(i).kind != NodeKind::Settlement ==> spurs_from(spurs, g.node(i)) >= 2 || forall|
        j: int,
    |
        0 <= j < g.members.len() && j != i ==> joined(all, g.node(i), #[trigger] g.node(j))
            || no_way(plan.f, g.node(i), g.node(j))
    &&& forall|k: int, j: int|
        #![trigger spurs[k], g.node(j)]
        0 <= k < spurs.len() && spurs[k].laid() && 0 <= j < g.members.len() && j != i
            && pair_weight(g.cells, g.node(i), g.node(j)) < pair_weight(
            g.cells,
            g.node(i),
            spurs[k].b,
        ) ==> joined(all, g.node(i), g.node(j)) || no_way(plan.f, g.node(i), g.node(j))
}

/// What the spurs of a finished network are like, by its roads alone.
pub open spec fn spurs_are_right(f: RoadView, nodes: Seq<GraphNode>, roads: Seq<Attempt>) -> bool {
    &&& forall|k: int|
        0 <= k < roads.len() && (#[trigger] roads[k]).class == RoadClass::Secondary
            && roads[k].tried ==> roads[k].a.kind != NodeKind::Settlement
    &&& forall|x: int|
        0 <= x < nodes.len() && (#[trigger] nodes[x]).kind != NodeKind::Settlement ==> spurs_from(
            roads,
            nodes[x],
        ) >= 2 || forall|y: int|
            0 <= y < nodes.len() && y != x && (#[trigger] nodes[y]).landmass == nodes[x].landmass
                ==> joined(roads, nodes[x], nodes[y]) || no_way(f, nodes[x], nodes[y])
    &&& forall|k: int, y: int|
        #![trigger roads[k], nodes[y]]
        0 <= k < roads.len() && roads[k].class == RoadClass::Secondary && roads[k].tried
            && roads[k].path.len() >= 2 && 0 <= y < nodes.len() && nodes[y].landmass
            == roads[k].a.landmass && nodes[y] != roads[k].a && pair_weight(
            f.cells,
            roads[k].a,
            nodes[y],
        ) < pair_weight(f.cells, roads[k].a, roads[k].b) ==> joined(roads, roads[k].a, nodes[y])
            || no_way(f, roads[k].a, nodes[y])
}

/// What spurs a finished network has. It is made of the roads of some list, laid one after
/// the other onto the graph there was. No secondary road starts from a settlement. From
/// every other node at least two do, or else every other node of its landmass is joined to
/// it or has no way to it. And a secondary road goes to the nearest: whatever is cheaper to
/// reach is joined to its start too, or has no way to it.
pub proof fn law_spurs_of_a_finished_network(
    plan: RoadPlan,
    nodes: Seq<GraphNode>,
    before: RoadsView,
    after: RoadsView,
)
    requires
        roads_built(plan, nodes, before, after),
        nodes.len() <= i32::MAX,
    ensures
        exists|roads: Seq<Attempt>|
            plan.after_all(RoadState { graph: before, serial: 0 }, roads).graph == after
                && #[trigger] spurs_are_right(plan.f, nodes, roads),
{
    let st = RoadState { graph: before, serial: 0 };
    let (masses, tried) = choose|masses: Seq<i32>, tried: Seq<Seq<Attempt>>|
        {
            &&& #[trigger] is_mass_list(nodes, masses)
            &&& tried.len() == masses.len()
            &&& forall|m: int|
                0 <= m < masses.len() ==> mass_tried(plan, nodes, masses[m], #[trigger] tried[m])
            &&& plan.after_all(st, #[trigger] spurs_flat(tried, tried.len())).graph == after
        };
    let all = spurs_flat(tried, tried.len());
    lemma_flat_holds(tried, tried.len());
    assert forall|m: int| 0 <= m < tried.len() implies #[trigger] mass_done(
        plan,
        nodes,
        masses[m],
        tried[m],
        all,
    ) by {
        assert(mass_tried(plan, nodes, masses[m], tried[m]));
        assert forall|k: int| 0 <= k < tried[m].len() implies all.contains(
            #[trigger] tried[m][k],
        ) by {}
        lemma_mass_done(plan, nodes, masses[m], tried[m], all);
    }
    assert forall|k: int|
        0 <= k < all.len() && (#[trigger] all[k]).class == RoadClass::Secondary
            && all[k].tried implies all[k].a.kind != NodeKind::Settlement by {
        let (m, p) = choose|m: int, p: int|
            0 <= m < tried.len() && 0 <= p < tried[m].len() && #[trigger] tried[m][p] == all[k];
        assert(mass_done(plan, nodes, masses[m], tried[m], all));
    }
    assert forall|x: int|
        0 <= x < nodes.len() && (#[trigger] nodes[x]).kind
            != NodeKind::Settlement implies spurs_from(all, nodes[x]) >= 2 || forall|y: int|
        0 <= y < nodes.len() && y != x && (#[trigger] nodes[y]).landmass == nodes[x].landmass
            ==> joined(all, nodes[x], nodes[y]) || no_way(plan.f, nodes[x], nodes[y]) by {
        assert(masses.contains(nodes[x].landmass));
        let m = choose|m: int| 0 <= m < masses.len() && masses[m] == nodes[x].landmass;
        assert(mass_done(plan, nodes, masses[m], tried[m], all));
        lemma_flat_counts(tried, tried.len(), m, nodes[x]);
    }
    assert forall|k: int, y: int|
        #![trigger all[k], nodes[y]]
        0 <= k < all.len() && all[k].class == RoadClass::Secondary && all[k].tried
            && all[k].path.len() >= 2 && 0 <= y < nodes.len() && nodes[y].landmass
            == all[k].a.landmass && nodes[y] != all[k].a && pair_weight(
            plan.f.cells,
            all[k].a,
            nodes[y],
        ) < pair_weight(plan.f.cells, all[k].a, all[k].b) implies joined(
        all,
        all[k].a,
        nodes[y],
    ) || no_way(plan.f, all[k].a, nodes[y]) by {
        let (m, p) = choose|m: int, p: int|
            0 <= m < tried.len() && 0 <= p < tried[m].len() && #[trigger] tried[m][p] == all[k];
        assert(mass_done(plan, nodes, masses[m], tried[m], all));
        assert(tried[m][p].a.landmass == masses[m]);
    }
    assert(spurs_are_right(plan.f, nodes, all));
}

/// What the roads of one landmass come to, among all roads.
spec fn mass_done(
    plan: RoadPlan,
    nodes: Seq<GraphNode>,
    mass: i32,
    roads: Seq<Attempt>,
    all: Seq<Attempt>,
) -> bool {
    &&& forall|k: int|
        0 <= k < roads.len() ==> {
            &&& (#[trigger] roads[k]).class == RoadClass::Secondary ==> roads[k].a.kind
                != NodeKind::Settlement
            &&& roads[k].a.landmass == mass
        }
    &&& forall|x: int|
        0 <= x < nodes.len() && (#[trigger] nodes[x]).landmass == mass && nodes[x].kind
            != NodeKind::Settlement ==> spurs_from(roads, nodes[x]) >= 2 || forall|y: int|
            0 <= y < nodes.len() && y != x && (#[trigger] nodes[y]).landmass == mass ==> joined(
                all,
                nodes[x],
                nodes[y],
            ) || no_way(plan.f, nodes[x], nodes[y])
    &&& forall|k: int, y: int|
        #![trigger roads[k], nodes[y]]
        0 <= k < roads.len() && roads[k].class == RoadClass::Secondary && roads[k].laid() && 0 <= y
            < nodes.len() && nodes[y].landmass == mass && pair_weight(
            plan.f.cells,
            roads[k].a,
            nodes[y],
        ) < pair_weight(plan.f.cells, roads[k].a, roads[k].b) ==> nodes[y] == roads[k].a || joined(
            all,
            roads[k].a,
            nodes[y],
        ) || no_way(plan.f, roads[k].a, nodes[y])
}

proof fn lemma_mass_done(
    plan: RoadPlan,
    nodes: Seq<GraphNode>,
    mass: i32,
    roads: Seq<Attempt>,
    all: Seq<Attempt>,
)
    requires
        mass_tried(plan, nodes, mass, roads),
        nodes.len() <= i32::MAX,
        forall|k: int| 0 <= k < roads.len() ==> all.contains(#[trigger] roads[k]),
    ensures
        mass_done(plan, nodes, mass, roads, all),
{
    let members = choose|members: Seq<usize>|
        #[trigger] is_mass_members(nodes, mass, members) && if members.len() < 2 {
            roads.len() == 0
        } else {
            group_tried(
                plan,
                Group { size: plan.f.size, cells: plan.f.cells, nodes, members },
                roads,
            )
        };
    let g = Group { size: plan.f.size, cells: plan.f.cells, nodes, members };
    assert(members.len() <= nodes.len()) by {
        let t = Seq::new(members.len(), |p: int| members[p] as i32);
        assert forall|p: int| 0 <= p < t.len() implies 0 <= #[trigger] t[p] < nodes.len() && t[p]
            == members[p] by {
            assert(members[p] < nodes.len());
        }
        assert(t.no_duplicates());
        lemma_distinct_len(t, nodes.len() as int);
    }
    if members.len() >= 2 {
        lemma_group_done(plan, g, roads, all);
        assert forall|i: int| 0 <= i < members.len() implies (#[trigger] g.node(i)).landmass
            == mass by {
            assert(members.contains((members[i] as int) as usize));
        }
        assert forall|k: int| 0 <= k < roads.len() implies (#[trigger] roads[k]).a.landmass
            == mass by {
            let i = choose|i: int| 0 <= i < g.members.len() && #[trigger] g.node(i) == roads[k].a;
            assert(g.node(i).landmass == mass);
        }
    }
    assert forall|x: int|
        0 <= x < nodes.len() && (#[trigger] nodes[x]).landmass == mass && nodes[x].kind
            != NodeKind::Settlement implies spurs_from(roads, nodes[x]) >= 2 || forall|y: int|
        0 <= y < nodes.len() && y != x && (#[trigger] nodes[y]).landmass == mass ==> joined(
            all,
            nodes[x],
            nodes[y],
        ) || no_way(plan.f, nodes[x], nodes[y]) by {
        assert(members.contains(x as usize));
        let i = choose|i: int| 0 <= i < members.len() && members[i] == x as usize;
        assert(g.node(i) == nodes[x]);
        if spurs_from(roads, nodes[x]) < 2 {
            assert forall|y: int|
                0 <= y < nodes.len() && y != x && (#[trigger] nodes[y]).landmass
                    == mass implies joined(all, nodes[x], nodes[y]) || no_way(
                plan.f,
                nodes[x],
                nodes[y],
            ) by {
                assert(members.contains(y as usize));
                let j = choose|j: int| 0 <= j < members.len() && members[j] == y as usize;
                assert(g.node(j) == nodes[y]);
                if members.len() < 2 {
                    assert(i == 0 && j == 0);
                }
            }
        }
    }
    assert forall|k: int, y: int|
        #![trigger roads[k], nodes[y]]
        0 <= k < roads.len() && roads[k].class == RoadClass::Secondary && roads[k].laid() && 0 <= y
            < nodes.len() && nodes[y].landmass == mass && pair_weight(
            plan.f.cells,
            roads[k].a,
            nodes[y],
        ) < pair_weight(plan.f.cells, roads[k].a, roads[k].b) implies nodes[y] == roads[k].a
        || joined(all, roads[k].a, nodes[y]) || no_way(plan.f, roads[k].a, nodes[y]) by {
        assert(members.contains(y as usize));
        let j = choose|j: int| 0 <= j < members.len() && members[j] == y as usize;
        assert(g.node(j) == nodes[y]);
    }
}

} // verus!
