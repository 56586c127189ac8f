//! What a finished road network joins, and what a road leaves along its way.

use crate::atlas::cell_map::list_at;
use crate::atlas::drainage::wet;
use crate::atlas::features::{Dir, EndpointKind, Kind, RoadClass};
use crate::atlas::grid::lemma_distinct_len;
use crate::atlas::road_laws::law_one_way;
use crate::atlas::road_network::{
    backbone_tried, group_tried, is_mass_list, is_mass_members, mass_tried, pair_weight,
    roads_built, spurs_flat, spurs_tried, way_found, Attempt, Group, RoadPlan, RoadState,
};
use crate::atlas::road_search::RoadView;
use crate::atlas::roads::{
    around, beside_river, crossing_at, exit_side, exits_by, holds_undirected, plaza_allows,
    same_ends, RoadStamp, RoadVisit, RoadsView,
};
use crate::atlas::spur_laws::{in_lists, lemma_flat_holds, no_way};
use crate::atlas::types::{GraphNode, Link, Port};
use vstd::prelude::*;

verus! {

/// No primary road leads from inside a set of nodes to outside it.
pub open spec fn unbroken(nodes: Seq<GraphNode>, roads: Seq<Attempt>, side: Set<int>) -> bool {
    forall|k: int, i: int, j: int|
        #![trigger roads[k], nodes[i], nodes[j]]
        0 <= k < roads.len() && 0 <= i < nodes.len() && 0 <= j < nodes.len() && roads[k].class
            == RoadClass::Primary && roads[k].tried && roads[k].path.len() >= 2 && nodes[i]
            == roads[k].a && nodes[j] == roads[k].b ==> side.contains(i) == side.contains(j)
}

/// Every two nodes of a landmass have a way to each other.
pub open spec fn open_land(f: RoadView, nodes: Seq<GraphNode>, mass: i32) -> bool {
    forall|i: int, j: int|
        #![trigger nodes[i], nodes[j]]
        0 <= i < nodes.len() && 0 <= j < nodes.len() && i != j && nodes[i].landmass == mass
            && nodes[j].landmass == mass ==> !no_way(f, nodes[i], nodes[j])
}

/// The primary roads hold a landmass together: where every two of its nodes have a way to
/// each other, no set of them is cut off from the rest.
pub open spec fn holds_together(f: RoadView, nodes: Seq<GraphNode>, roads: Seq<Attempt>) -> bool {
    forall|side: Set<int>, x: int, y: int|
        #![trigger unbroken(nodes, roads, side), nodes[x], nodes[y]]
        unbroken(nodes, roads, side) && 0 <= x < nodes.len() && 0 <= y < nodes.len()
            && nodes[x].landmass == nodes[y].landmass && open_land(f, nodes, nodes[x].landmass)
            ==> side.contains(x) == side.contains(y)
}

/// A road is the cheapest way out of some set of nodes of its landmass.
pub open spec fn cheapest_out(f: RoadView, nodes: Seq<GraphNode>, road: Attempt, side: Set<int>)
    -> bool {
    &&& exists|i: int| 0 <= i < nodes.len() && #[trigger] nodes[i] == road.a && side.contains(i)
    &&& exists|j: int| 0 <= j < nodes.len() && #[trigger] nodes[j] == road.b && !side.contains(j)
    &&& forall|i: int, j: int|
        #![trigger nodes[i], nodes[j]]
        0 <= i < nodes.len() && 0 <= j < nodes.len() && nodes[i].landmass == road.a.landmass
            && nodes[j].landmass == road.a.landmass && side.contains(i) && !side.contains(j)
            ==> pair_weight(f.cells, road.a, road.b) <= pair_weight(f.cells, nodes[i], nodes[j])
}

/// Every primary road is the cheapest way out of some set of nodes.
pub open spec fn all_cheapest(f: RoadView, nodes: Seq<GraphNode>, roads: Seq<Attempt>) -> bool {
    forall|k: int|
        0 <= k < roads.len() && (#[trigger] roads[k]).class == RoadClass::Primary ==> exists|
            side: Set<int>,
        | cheapest_out(f, nodes, roads[k], side)
}

/// The ids that the primary roads of a list join, in order.
pub open spec fn primary_ids(roads: Seq<Attempt>) -> Seq<(i32, i32)>
    decreases roads.len(),
{
    if roads.len() == 0 {
        Seq::empty()
    } else {
        let at = roads.last();
        if at.tried && at.path.len() >= 2 && at.class == RoadClass::Primary {
            primary_ids(roads.drop_last()).push((at.a.id, at.b.id))
        } else {
            primary_ids(roads.drop_last())
        }
    }
}

proof fn lemma_stamp_keeps_list(s: RoadStamp, g: RoadsView, n: nat)
    ensures
        s.stamped(g, n).primary_edges == g.primary_edges,
    decreases n,
{
    if n > 0 {
        lemma_stamp_keeps_list(s, g, (n - 1) as nat);
    }
}

proof fn lemma_listed(plan: RoadPlan, st: RoadState, roads: Seq<Attempt>)
    ensures
        plan.after_all(st, roads).graph.primary_edges == st.graph.primary_edges + primary_ids(
            roads,
        ),
    decreases roads.len(),
{
    if roads.len() > 0 {
        let rest = roads.drop_last();
        let at = roads.last();
        lemma_listed(plan, st, rest);
        let mid = plan.after_all(st, rest);
        lemma_stamp_keeps_list(plan.stamp(at, mid.serial), mid.graph, at.path.len());
        assert(plan.after_all(st, roads).graph.primary_edges =~= st.graph.primary_edges
            + primary_ids(roads));
    } else {
        assert(st.graph.primary_edges + primary_ids(roads) =~= st.graph.primary_edges);
    }
}

/// Every member is joined by the end.
proof fn lemma_all_in_tree(g: Group, root: int, edges: Seq<(usize, usize)>, z: int)
    requires
        g.is_densest(root),
        edges.len() == g.members.len() - 1,
        g.members.len() <= i32::MAX,
        forall|t: int| 0 <= t < edges.len() ==> #[trigger] g.cheapest_join(root, edges, t),
        0 <= z < g.members.len(),
    ensures
        g.in_tree(root, edges, edges.len() as int, z),
{
    let n = g.members.len() as int;
    if !g.in_tree(root, edges, edges.len() as int, z) {
        let s = Seq::new(
            (n + 1) as nat,
            |p: int|
                if p == 0 {
                    root as i32
                } else if p == 1 {
                    z as i32
                } else {
                    edges[p - 2].1 as i32
                },
        );
        assert forall|p: int| 0 <= p < s.len() implies 0 <= #[trigger] s[p] < n by {
            if p >= 2 {
                assert(g.cheapest_join(root, edges, p - 2));
            }
        }
        assert forall|p: int, q: int| 0 <= p < s.len() && 0 <= q < s.len() && p != q implies s[p]
            != s[q] by {
            let a = if p < q {
                p
            } else {
                q
            };
            let b = if p < q {
                q
            } else {
                p
            };
            if b >= 2 {
                assert(g.cheapest_join(root, edges, b - 2));
                assert(!g.in_tree(root, edges, b - 2, edges[b - 2].1 as int));
                if a >= 2 {
                    assert(g.cheapest_join(root, edges, a - 2));
                    if edges[a - 2].1 == edges[b - 2].1 {
                        assert(g.in_tree(root, edges, b - 2, edges[b - 2].1 as int));
                    }
                } else if a == 1 {
                    if edges[b - 2].1 == z {
                        assert(g.in_tree(root, edges, edges.len() as int, z));
                    }
                }
            }
        }
        lemma_distinct_len(s, n);
    }
}

proof fn lemma_group_holds(
    plan: RoadPlan,
    g: Group,
    mass: i32,
    roads: Seq<Attempt>,
    all: Seq<Attempt>,
    side: Set<int>,
    z: int,
) -> (root: int)
    requires
        group_tried(plan, g, roads),
        g.members.len() <= i32::MAX,
        forall|k: int| 0 <= k < roads.len() ==> all.contains(#[trigger] roads[k]),
        forall|i: int|
            0 <= i < g.members.len() ==> (#[trigger] g.members[i]) < g.nodes.len() && g.node(
                i,
            ).landmass == mass,
        g.members.no_duplicates(),
        open_land(plan.f, g.nodes, mass),
        unbroken(g.nodes, all, side),
        0 <= z < g.members.len(),
    ensures
        g.is_densest(root),
        side.contains(g.members[z] as int) == side.contains(g.members[root] as int),
{
    let (edges, trunk, spurs) = choose|
        edges: Seq<(usize, usize)>,
        trunk: Seq<Attempt>,
        spurs: Seq<Seq<Attempt>>,
    |
        {
            &&& #[trigger] backbone_tried(plan, g, edges, trunk)
            &&& spurs.len() == g.members.len()
            &&& forall|i: int|
                0 <= i < spurs.len() ==> spurs_tried(
                    plan,
                    g,
                    i,
                    trunk + spurs_flat(spurs, i as nat),
                    #[trigger] spurs[i],
                )
            &&& roads == trunk + #[trigger] spurs_flat(spurs, spurs.len())
        };
    let root = choose|root: int| #[trigger]
        g.is_densest(root) && forall|t: int|
            0 <= t < edges.len() ==> #[trigger] g.cheapest_join(root, edges, t);
    assert forall|k: int| 0 <= k < trunk.len() implies all.contains(#[trigger] trunk[k]) by {
        assert(roads[k] == trunk[k]);
    }
    lemma_all_in_tree(g, root, edges, z);
    lemma_tree_side(plan, g, mass, edges, trunk, all, side, root, edges.len(), z);
    root
}

proof fn lemma_tree_side(
    plan: RoadPlan,
    g: Group,
    mass: i32,
    edges: Seq<(usize, usize)>,
    trunk: Seq<Attempt>,
    all: Seq<Attempt>,
    side: Set<int>,
    root: int,
    t: nat,
    z: int,
)
    requires
        backbone_tried(plan, g, edges, trunk),
        g.is_densest(root),
        forall|u: int| 0 <= u < edges.len() ==> #[trigger] g.cheapest_join(root, edges, u),
        forall|k: int| 0 <= k < trunk.len() ==> all.contains(#[trigger] trunk[k]),
        forall|i: int|
            0 <= i < g.members.len() ==> (#[trigger] g.members[i]) < g.nodes.len() && g.node(
                i,
            ).landmass == mass,
        g.members.no_duplicates(),
        open_land(plan.f, g.nodes, mass),
        unbroken(g.nodes, all, side),
        t <= edges.len(),
        0 <= z < g.members.len(),
        g.in_tree(root, edges, t as int, z),
    ensures
        side.contains(g.members[z] as int) == side.contains(g.members[root] as int),
    decreases t,
{
    if z != root {
        let u = choose|u: int| 0 <= u < t && (#[trigger] edges[u]).1 == z;
        let i = edges[u].0 as int;
        assert(g.cheapest_join(root, edges, u));
        lemma_tree_side(plan, g, mass, edges, trunk, all, side, root, u as nat, i);
        let at = trunk[u];
        let x = g.members[i] as int;
        let y = g.members[z] as int;
        assert(i != z);
        assert(x != y);
        assert(!no_way(plan.f, g.nodes[x], g.nodes[y]));
        let path = choose|path: Seq<i32>|
            #[trigger] way_found(plan.f, g.nodes[x], g.nodes[y], path) && path.len() >= 2;
        assert(at.a == g.nodes[x] && at.b == g.nodes[y]);
        law_one_way(plan.f, at.a, at.b, at.path, path);
        assert(all.contains(trunk[u]));
        let k = choose|k: int| 0 <= k < all.len() && all[k] == at;
        assert(all[k].class == RoadClass::Primary && all[k].tried);
        assert(g.nodes[x] == all[k].a && g.nodes[y] == all[k].b);
    }
}

/// A backbone road is the cheapest out of the members joined before it.
proof fn lemma_group_cheapest(
    plan: RoadPlan,
    g: Group,
    mass: i32,
    roads: Seq<Attempt>,
    k: int,
)
    requires
        group_tried(plan, g, roads),
        0 <= k < roads.len(),
        roads[k].class == RoadClass::Primary,
        g.cells == plan.f.cells,
        forall|i: int|
            0 <= i < g.members.len() ==> (#[trigger] g.members[i]) < g.nodes.len() && g.node(
                i,
            ).landmass == mass,
        g.members.no_duplicates(),
        g.members.len() <= i32::MAX,
        g.nodes.len() <= i32::MAX,
        forall|x: int|
            0 <= x < g.nodes.len() && (#[trigger] g.nodes[x]).landmass == mass
                ==> g.members.contains(x as usize),
    ensures
        exists|side: Set<int>| cheapest_out(plan.f, g.nodes, roads[k], side),
{
    let (edges, trunk, spurs) = choose|
        edges: Seq<(usize, usize)>,
        trunk: Seq<Attempt>,
        spurs: Seq<Seq<Attempt>>,
    |
        {
            &&& #[trigger] backbone_tried(plan, g, edges, trunk)
            &&& spurs.len() == g.members.len()
            &&& forall|i: int|
                0 <= i < spurs.len() ==> spurs_tried(
                    plan,
                    g,
                    i,
                    trunk + spurs_flat(spurs, i as nat),
                    #[trigger] spurs[i],
                )
            &&& roads == trunk + #[trigger] spurs_flat(spurs, spurs.len())
        };
    let root = choose|root: int| #[trigger]
        g.is_densest(root) && forall|t: int|
            0 <= t < edges.len() ==> #[trigger] g.cheapest_join(root, edges, t);
    let flat = spurs_flat(spurs, spurs.len());
    if k >= trunk.len() {
        lemma_flat_holds(spurs, spurs.len());
        let e = flat[k - trunk.len()];
        assert(in_lists(spurs, spurs.len() as int, e));
        let (i, p) = choose|i: int, p: int|
            0 <= i < spurs.len() && 0 <= p < spurs[i].len() && #[trigger] spurs[i][p] == e;
        lemma_spur_class(plan, g, i, trunk + spurs_flat(spurs, i as nat), spurs[i], p);
        assert(false);
    }
    let e = edges[k];
    assert(g.cheapest_join(root, edges, k));
    let side = Set::new(
        |x: int|
            exists|i: int|
                0 <= i < g.members.len() && #[trigger] g.members[i] == x && g.in_tree(
                    root,
                    edges,
                    k,
                    i,
                ),
    );
    let (a, b) = (g.members[e.0 as int] as int, g.members[e.1 as int] as int);
    assert(roads[k] == trunk[k]);
    assert(g.nodes[a] == roads[k].a && side.contains(a));
    assert(g.nodes[b] == roads[k].b && !side.contains(b)) by {
        if side.contains(b) {
            let i = choose|i: int|
                0 <= i < g.members.len() && #[trigger] g.members[i] == b && g.in_tree(
                    root,
                    edges,
                    k,
                    i,
                );
            assert(i == e.1);
        }
    }
    assert forall|x: int, y: int|
        #![trigger g.nodes[x], g.nodes[y]]
        0 <= x < g.nodes.len() && 0 <= y < g.nodes.len() && g.nodes[x].landmass
            == roads[k].a.landmass && g.nodes[y].landmass == roads[k].a.landmass && side.contains(x)
            && !side.contains(y) implies pair_weight(plan.f.cells, roads[k].a, roads[k].b)
        <= pair_weight(plan.f.cells, g.nodes[x], g.nodes[y]) by {
        assert(g.node(e.0 as int).landmass == mass);
        let i = choose|i: int|
            0 <= i < g.members.len() && #[trigger] g.members[i] == x && g.in_tree(
                root,
                edges,
                k,
                i,
            );
        assert(g.members.contains(y as usize));
        let j = choose|j: int| 0 <= j < g.members.len() && g.members[j] == y as usize;
        assert(g.members[j] == y);
        assert(!g.in_tree(root, edges, k, j));
        assert(g.can_join(root, edges, k, i, j));
        assert(g.weight(e.0 as int, e.1 as int) <= g.weight(i, j));
    }
    assert(cheapest_out(plan.f, g.nodes, roads[k], side));
}

proof fn lemma_spur_class(
    plan: RoadPlan,
    g: Group,
    i: int,
    before: Seq<Attempt>,
    spurs: Seq<Attempt>,
    p: int,
)
    requires
        spurs_tried(plan, g, i, before, spurs),
        0 <= p < spurs.len(),
    ensures
        spurs[p].class == RoadClass::Secondary,
{
    let order = choose|order: Seq<usize>|
        {
            &&& #[trigger] g.is_by_nearness(i, order)
            &&& forall|q: int|
                0 <= q < spurs.len() ==> #[trigger] crate::atlas::road_network::spur_tried(
                    plan,
                    g,
                    i,
                    order,
                    before,
                    spurs,
                    q,
                )
        };
    assert(crate::atlas::road_network::spur_tried(plan, g, i, order, before, spurs, p));
}

/// What a finished network joins. It is made of the roads of some list, laid one after the
/// other onto the graph there was. Its primary roads hold every landmass together on which
/// all nodes have ways to each other; each of them is the cheapest way out of some set of
/// nodes; and the graph lists the ids they join, in the order in which they were laid.
pub proof fn law_backbone_of_a_finished_network(
    plan: RoadPlan,
    nodes: Seq<GraphNode>,
    before: RoadsView,
    after: RoadsView,
)
    requires
        roads_built(plan, nodes, before, after),
        nodes.len() <= i32::MAX,
    ensures
        exists|roads: Seq<Attempt>|
            {
                &&& plan.after_all(RoadState { graph: before, serial: 0 }, roads).graph == after
                &&& #[trigger] holds_together(plan.f, nodes, roads)
                &&& all_cheapest(plan.f, nodes, roads)
                &&& after.primary_edges == before.primary_edges + primary_ids(roads)
            },
{
    let st = RoadState { graph: before, serial: 0 };
    let (masses, tried) = choose|masses: Seq<i32>, tried: Seq<Seq<Attempt>>|
        {
            &&& #[trigger] is_mass_list(nodes, masses)
            &&& tried.len() == masses.len()
            &&& forall|m: int|
                0 <= m < masses.len() ==> mass_tried(plan, nodes, masses[m], #[trigger] tried[m])
            &&& plan.after_all(st, #[trigger] spurs_flat(tried, tried.len())).graph == after
        };
    let all = spurs_flat(tried, tried.len());
    lemma_flat_holds(tried, tried.len());
    lemma_listed(plan, st, all);
    assert forall|side: Set<int>, x: int, y: int|
        #![trigger unbroken(nodes, all, side), nodes[x], nodes[y]]
        unbroken(nodes, all, side) && 0 <= x < nodes.len() && 0 <= y < nodes.len()
            && nodes[x].landmass == nodes[y].landmass && open_land(
            plan.f,
            nodes,
            nodes[x].landmass,
        ) implies side.contains(x) == side.contains(y) by {
        let mass = nodes[x].landmass;
        assert(masses.contains(mass));
        let m = choose|m: int| 0 <= m < masses.len() && masses[m] == mass;
        assert(mass_tried(plan, nodes, masses[m], tried[m]));
        assert forall|k: int| 0 <= k < tried[m].len() implies all.contains(
            #[trigger] tried[m][k],
        ) by {}
        lemma_mass_holds(plan, nodes, mass, tried[m], all, side, x, y);
    }
    assert forall|k: int|
        0 <= k < all.len() && (#[trigger] all[k]).class == RoadClass::Primary implies exists|
        side: Set<int>,
    | cheapest_out(plan.f, nodes, all[k], side) by {
        assert(in_lists(tried, tried.len() as int, all[k]));
        let (m, p) = choose|m: int, p: int|
            0 <= m < tried.len() && 0 <= p < tried[m].len() && #[trigger] tried[m][p] == all[k];
        assert(mass_tried(plan, nodes, masses[m], tried[m]));
        lemma_mass_cheapest(plan, nodes, masses[m], tried[m], p);
    }
    assert(holds_together(plan.f, nodes, all));
    assert(all_cheapest(plan.f, nodes, all));
}

proof fn lemma_members(nodes: Seq<GraphNode>, mass: i32, members: Seq<usize>)
    requires
        is_mass_members(nodes, mass, members),
        nodes.len() <= i32::MAX,
    ensures
        members.len() <= nodes.len(),
        forall|i: int|
            0 <= i < members.len() ==> (#[trigger] members[i]) < nodes.len()
                && nodes[members[i] as int].landmass == mass,
{
    let t = Seq::new(members.len(), |p: int| members[p] as i32);
    assert forall|p: int| 0 <= p < t.len() implies 0 <= #[trigger] t[p] < nodes.len() && t[p]
        == members[p] by {
        assert(members[p] < nodes.len());
    }
    assert(t.no_duplicates());
    lemma_distinct_len(t, nodes.len() as int);
    assert forall|i: int| 0 <= i < members.len() implies (#[trigger] members[i]) < nodes.len()
        && nodes[members[i] as int].landmass == mass by {
        assert(members.contains((members[i] as int) as usize));
    }
}

proof fn lemma_mass_holds(
    plan: RoadPlan,
    nodes: Seq<GraphNode>,
    mass: i32,
    roads: Seq<Attempt>,
    all: Seq<Attempt>,
    side: Set<int>,
    x: int,
    y: int,
)
    requires
        mass_tried(plan, nodes, mass, roads),
        nodes.len() <= i32::MAX,
        forall|k: int| 0 <= k < roads.len() ==> all.contains(#[trigger] roads[k]),
        unbroken(nodes, all, side),
        open_land(plan.f, nodes, mass),
        0 <= x < nodes.len(),
        0 <= y < nodes.len(),
        nodes[x].landmass == mass,
        nodes[y].landmass == mass,
    ensures
        side.contains(x) == side.contains(y),
{
    let members = choose|members: Seq<usize>|
        #[trigger] is_mass_members(nodes, mass, members) && if members.len() < 2 {
            roads.len() == 0
        } else {
            group_tried(
                plan,
                Group { size: plan.f.size, cells: plan.f.cells, nodes, members },
                roads,
            )
        };
    let g = Group { size: plan.f.size, cells: plan.f.cells, nodes, members };
    lemma_members(nodes, mass, members);
    assert(members.contains(x as usize) && members.contains(y as usize));
    let i = choose|i: int| 0 <= i < members.len() && members[i] == x as usize;
    let j = choose|j: int| 0 <= j < members.len() && members[j] == y as usize;
    if members.len() >= 2 {
        assert forall|k: int| 0 <= k < g.members.len() implies (#[trigger] g.members[k])
            < g.nodes.len() && g.node(k).landmass == mass by {
            assert(members[k] < nodes.len());
        }
        let r = lemma_group_holds(plan, g, mass, roads, all, side, i);
        let s = lemma_group_holds(plan, g, mass, roads, all, side, j);
        assert(g.pop(r) <= g.pop(s) && g.pop(s) <= g.pop(r));
        assert(r == s);
    }
}

proof fn lemma_mass_cheapest(
    plan: RoadPlan,
    nodes: Seq<GraphNode>,
    mass: i32,
    roads: Seq<Attempt>,
    k: int,
)
    requires
        mass_tried(plan, nodes, mass, roads),
        nodes.len() <= i32::MAX,
        0 <= k < roads.len(),
        roads[k].class == RoadClass::Primary,
    ensures
        exists|side: Set<int>| cheapest_out(plan.f, nodes, roads[k], side),
{
    let members = choose|members: Seq<usize>|
        #[trigger] is_mass_members(nodes, mass, members) && if members.len() < 2 {
            roads.len() == 0
        } else {
            group_tried(
                plan,
                Group { size: plan.f.size, cells: plan.f.cells, nodes, members },
                roads,
            )
        };
    let g = Group { size: plan.f.size, cells: plan.f.cells, nodes, members };
    lemma_members(nodes, mass, members);
    assert forall|i: int| 0 <= i < g.members.len() implies (#[trigger] g.members[i])
        < g.nodes.len() && g.node(i).landmass == mass by {
        assert(members[i] < nodes.len());
    }
    lemma_group_cheapest(plan, g, mass, roads, k);
}

/// What a road leaves at a cell of its way: a road's link of its class, 0 for a primary and
/// 1 for a secondary one, from its first node at the start and to its second node at the
/// end. Only a town may refuse it.
pub proof fn law_roads_are_linked_along_their_way(s: RoadStamp, g: RoadsView, n: nat, i: int)
    requires
        n <= s.path.len(),
        0 <= i < n,
        s.path.no_duplicates(),
    ensures
        s.link(i).kind == Kind::Road,
        s.class == RoadClass::Primary ==> s.link(i).feature_class == 0,
        s.class == RoadClass::Secondary ==> s.link(i).feature_class == 1,
        i == 0 <==> s.link(i).a.kind == EndpointKind::Node,
        i == 0 ==> s.link(i).a.ref_id == s.node_a,
        i + 1 == s.path.len() <==> s.link(i).b.kind == EndpointKind::Node,
        i + 1 == s.path.len() ==> s.link(i).b.ref_id == s.node_b,
        !s.towns[s.path[i] as int] ==> s.stamped(g, n).links.contains_key(s.path[i]) && exists|
            k: int,
        |
            0 <= k < s.stamped(g, n).links[s.path[i]].len() && same_ends(
                #[trigger] s.stamped(g, n).links[s.path[i]][k],
                s.link(i),
            ),
        list_at(g.links, s.path[i]).len() <= list_at(s.stamped(g, n).links, s.path[i]).len()
            <= list_at(g.links, s.path[i]).len() + 1,
    decreases n,
{
    lemma_stamp_other(s, g, i as nat, s.path[i]);
    let before = s.stamped(g, i as nat);
    let now = s.stamped(g, (i + 1) as nat);
    let slot = list_at(before.links, s.path[i]);
    if holds_undirected(slot, s.link(i)) {
        let k = choose|k: int| 0 <= k < slot.len() && same_ends(#[trigger] slot[k], s.link(i));
        assert(now.links[s.path[i]][k] == slot[k]);
    } else if !s.towns[s.path[i] as int] || plaza_allows(
        slot,
        crate::atlas::grid::cell_x(s.size, s.path[i] as int),
        crate::atlas::grid::cell_z(s.size, s.path[i] as int),
        s.link(i),
    ) {
        assert(now.links[s.path[i]][slot.len() as int] == s.link(i));
    }
    lemma_stamp_later(s, g, (i + 1) as nat, n, s.path[i]);
}

/// Cells that are not on the way so far are left alone.
proof fn lemma_stamp_other(s: RoadStamp, g: RoadsView, n: nat, cell: i32)
    requires
        n <= s.path.len(),
        forall|j: int| 0 <= j < n ==> #[trigger] s.path[j] != cell,
    ensures
        s.stamped(g, n).links.contains_key(cell) == g.links.contains_key(cell),
        list_at(s.stamped(g, n).links, cell) == list_at(g.links, cell),
    decreases n,
{
    if n > 0 {
        lemma_stamp_other(s, g, (n - 1) as nat, cell);
        assert(s.path[n - 1] != cell);
    }
}

proof fn lemma_stamp_later(s: RoadStamp, g: RoadsView, i: nat, n: nat, cell: i32)
    requires
        i <= n <= s.path.len(),
        forall|j: int| i <= j < n ==> #[trigger] s.path[j] != cell,
    ensures
        s.stamped(g, n).links.contains_key(cell) == s.stamped(g, i).links.contains_key(cell),
        list_at(s.stamped(g, n).links, cell) == list_at(s.stamped(g, i).links, cell),
    decreases n,
{
    if n > i {
        lemma_stamp_later(s, g, i, (n - 1) as nat, cell);
        assert(s.path[n - 1] != cell);
    }
}

/// A road changes nothing off its way.
pub proof fn law_roads_change_nothing_off_their_way(s: RoadStamp, g: RoadsView, cell: i32)
    requires
        forall|j: int| 0 <= j < s.path.len() ==> #[trigger] s.path[j] != cell,
    ensures
        s.stamped(g, s.path.len()).links.contains_key(cell) == g.links.contains_key(cell),
        g.links.contains_key(cell) ==> s.stamped(g, s.path.len()).links[cell] == g.links[cell],
{
    lemma_stamp_other(s, g, s.path.len(), cell);
}

/// A town is a spur or a through road: if a road may leave it by a side, no road leaves it
/// by that side yet, and none by a side but the one straight across.
pub proof fn law_towns_are_no_hubs(existing: Seq<Link>, ax: int, az: int, new: Link, k: int)
    requires
        plaza_allows(existing, ax, az, new),
        exit_side(ax, az, new) is Some,
        0 <= k < existing.len(),
        exit_side(ax, az, existing[k]) is Some,
    ensures
        ({
            let out = exit_side(ax, az, new)->0;
            let old_out = exit_side(ax, az, existing[k])->0;
            &&& old_out != out
            &&& out == Dir::East ==> old_out == Dir::West
            &&& out == Dir::West ==> old_out == Dir::East
            &&& out == Dir::North ==> old_out == Dir::South
            &&& out == Dir::South ==> old_out == Dir::North
        }),
{
    assert(exits_by(existing, ax, az, exit_side(ax, az, existing[k])->0));
}

/// A cell that a road leaves by one side lets another out only straight across. A link that
/// leaves by no side is always let in, and so is the first that leaves.
pub proof fn law_towns_let_roads_straight_through(
    existing: Seq<Link>,
    ax: int,
    az: int,
    new: Link,
    i: int,
)
    requires
        0 <= i < existing.len(),
    ensures
        exit_side(ax, az, new) is None ==> plaza_allows(existing, ax, az, new),
        exit_side(ax, az, new) is Some && exit_side(ax, az, existing[i]) == exit_side(ax, az, new)
            ==> !plaza_allows(existing, ax, az, new),
        exit_side(ax, az, new) == Some(Dir::East) && exit_side(ax, az, existing[i]) is Some
            && plaza_allows(existing, ax, az, new) ==> exit_side(ax, az, existing[i]) == Some(
            Dir::West,
        ),
        exit_side(ax, az, new) == Some(Dir::North) && exit_side(ax, az, existing[i]) is Some
            && plaza_allows(existing, ax, az, new) ==> exit_side(ax, az, existing[i]) == Some(
            Dir::South,
        ),
        (forall|j: int|
            0 <= j < existing.len() ==> exit_side(ax, az, #[trigger] existing[j]) is None)
            ==> plaza_allows(existing, ax, az, new),
{
    if exit_side(ax, az, existing[i]) is Some {
        assert(exits_by(existing, ax, az, exit_side(ax, az, existing[i])->0));
    }
}

/// Only links between a node and an edge leave a town.
pub proof fn law_only_links_to_nodes_leave_towns(ax: int, az: int, link: Link)
    requires
        exit_side(ax, az, link) is Some,
    ensures
        link.a.kind == EndpointKind::Node <==> link.b.kind == EndpointKind::EdgePort,
        link.a.kind == EndpointKind::EdgePort <==> link.b.kind == EndpointKind::Node,
{
}

/// A road's port visited again never becomes less important, and keeps its height and name; a
/// new one has the class and the height of the visit.
pub proof fn law_road_ports_keep_the_better_class(
    v: RoadVisit,
    world_seed: i32,
    ports: Seq<Port>,
    i: int,
)
    requires
        0 <= i < ports.len(),
        i32::MIN <= v.z <= i32::MAX,
    ensures
        ({
            let out = v.visit(world_seed, ports);
            &&& out.len() == ports.len()
            &&& out[i].feature_class <= ports[i].feature_class
            &&& v.class == RoadClass::Primary ==> out[i].feature_class <= 0
            &&& v.class == RoadClass::Secondary ==> out[i].feature_class <= 1
            &&& out[i].surface_z == ports[i].surface_z
            &&& out[i].id == ports[i].id
            &&& out[i].feature_id == ports[i].feature_id
            &&& v.visit(world_seed, Seq::empty()).len() == 1
            &&& v.visit(world_seed, Seq::empty())[0].surface_z == v.z
            &&& v.visit(world_seed, Seq::empty())[0].kind == Kind::Road
        }),
{
}

/// Beside a river lie dry cells without one, and each of the eight around a river cell that is
/// such a cell.
pub proof fn law_banks_lie_around_rivers(
    size: int,
    cells: Seq<i32>,
    rivers: Set<i32>,
    r: i32,
    k: int,
)
    requires
        rivers.contains(r),
        0 <= k < 8,
        around(size, r as int, k) is Some,
    ensures
        ({
            let c = around(size, r as int, k)->0;
            &&& !wet(cells, c) && !rivers.contains(c as i32) ==> beside_river(
                size,
                cells,
                rivers,
                c,
            )
            &&& wet(cells, c) || rivers.contains(c as i32) ==> !beside_river(
                size,
                cells,
                rivers,
                c,
            )
        }),
{
}

/// A crossing carries the names and classes of the river and the road that meet in its cell.
pub proof fn law_crossings_tell_who_meets(id: int, cell: i32, river: Link, road: Link)
    ensures
        crossing_at(id, cell, river, road).cell == cell,
        crossing_at(id, cell, river, road).river_id == river.feature_id,
        crossing_at(id, cell, river, road).road_id == road.feature_id,
        crossing_at(id, cell, river, road).river_class == river.feature_class,
        crossing_at(id, cell, river, road).road_class == road.feature_class,
{
}

} // verus!
