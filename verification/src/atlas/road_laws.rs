//! Roads are determined: the same land and nodes get the same roads.

use crate::atlas::features::NodeKind;
use crate::atlas::pack::cell_biome_id;
use crate::atlas::rivers::abs_of;
use crate::atlas::road_network::{
    backbone_tried, first_of_mass, group_tried, has_first, is_mass_list, is_mass_members,
    laid_count, mass_tried, roads_built, spur_tried, spurs_flat, spurs_tried, way_found, Attempt,
    Group, RoadPlan, RoadState,
};
use crate::atlas::road_search::{searched, RoadView};
use crate::atlas::roads::{line_cell, line_ends_at, line_point, line_result, RoadsView};
use crate::atlas::types::GraphNode;
use vstd::prelude::*;

verus! {

/// Listed in a strict order.
spec fn sorted_by(s: Seq<usize>, before: spec_fn(usize, usize) -> bool) -> bool {
    forall|p: int, q: int|
        #![trigger s[p], s[q]]
        0 <= p < q < s.len() ==> before(s[p], s[q])
}

proof fn lemma_sorted_unique(
    a: Seq<usize>,
    b: Seq<usize>,
    before: spec_fn(usize, usize) -> bool,
)
    requires
        sorted_by(a, before),
        sorted_by(b, before),
        forall|x: usize, y: usize| #[trigger] before(x, y) ==> !before(y, x),
        forall|x: usize| #![auto] a.contains(x) <==> b.contains(x),
    ensures
        a == b,
    decreases a.len(),
{
    if a.len() == 0 {
        if b.len() > 0 {
            assert(b.contains(b[0]));
            assert(a.contains(b[0]));
        }
        assert(a =~= b);
    } else {
        let x = a.last();
        assert(a.contains(x)) by {
            assert(a[a.len() - 1] == x);
        }
        assert(b.contains(x));
        let q = choose|q: int| 0 <= q < b.len() && b[q] == x;
        let y = b.last();
        assert(b.contains(y)) by {
            assert(b[b.len() - 1] == y);
        }
        assert(a.contains(y));
        let p = choose|p: int| 0 <= p < a.len() && a[p] == y;
        assert(q == b.len() - 1) by {
            if q < b.len() - 1 {
                assert(before(b[q], b[b.len() - 1]));
                if p < a.len() - 1 {
                    assert(before(a[p], a[a.len() - 1]));
                }
            }
        }
        let a0 = a.drop_last();
        let b0 = b.drop_last();
        assert(sorted_by(a0, before)) by {
            assert forall|i: int, j: int|
                #![trigger a0[i], a0[j]]
                0 <= i < j < a0.len() implies before(a0[i], a0[j]) by {
                assert(before(a[i], a[j]));
            }
        }
        assert(sorted_by(b0, before)) by {
            assert forall|i: int, j: int|
                #![trigger b0[i], b0[j]]
                0 <= i < j < b0.len() implies before(b0[i], b0[j]) by {
                assert(before(b[i], b[j]));
            }
        }
        assert forall|z: usize| #![auto] a0.contains(z) <==> b0.contains(z) by {
            if a0.contains(z) {
                let i = choose|i: int| 0 <= i < a0.len() && a0[i] == z;
                assert(a[i] == z);
                assert(a.contains(z));
                assert(before(a[i], a[a.len() - 1]));
                let j = choose|j: int| 0 <= j < b.len() && b[j] == z;
                assert(j < b.len() - 1);
                assert(b0[j] == z);
            }
            if b0.contains(z) {
                let j = choose|j: int| 0 <= j < b0.len() && b0[j] == z;
                assert(b[j] == z);
                assert(b.contains(z));
                assert(before(b[j], b[b.len() - 1]));
                let i = choose|i: int| 0 <= i < a.len() && a[i] == z;
                assert(i < a.len() - 1);
                assert(a0[i] == z);
            }
        }
        lemma_sorted_unique(a0, b0, before);
        assert(a =~= a0.push(x));
        assert(b =~= b0.push(y));
    }
}

proof fn lemma_line_unique(
    size: int,
    cells: Seq<i32>,
    ax0: int,
    az0: int,
    ax1: int,
    az1: int,
    p: Seq<i32>,
    q: Seq<i32>,
)
    requires
        line_result(size, cells, ax0, az0, ax1, az1, p),
        line_result(size, cells, ax0, az0, ax1, az1, q),
        p.len() > 0,
    ensures
        p == q,
{
    let dx = abs_of(ax1 - ax0);
    let dz = abs_of(az1 - az0);
    let n = (p.len() - 1) as nat;
    assert(line_ends_at(dx, dz, n));
    if q.len() == 0 {
        let t = choose|t: nat|
            #![trigger line_cell(size, ax0, az0, ax1, az1, t)]
            (forall|u: nat| u < t ==> #[trigger] line_point(dx, dz, u) != (dx, dz))
                && cell_biome_id(cells[line_cell(size, ax0, az0, ax1, az1, t)]) == 0;
        if t > n {
            assert(line_point(dx, dz, n) != (dx, dz));
        }
        assert(p[t as int] == line_cell(size, ax0, az0, ax1, az1, t));
        assert(false);
    }
    let m = (q.len() - 1) as nat;
    assert(line_ends_at(dx, dz, m));
    if n < m {
        assert(line_point(dx, dz, n) != (dx, dz));
    }
    if m < n {
        assert(line_point(dx, dz, m) != (dx, dz));
    }
    assert forall|t: int| 0 <= t < p.len() implies p[t] == q[t] by {
        assert(p[t] == line_cell(size, ax0, az0, ax1, az1, t as nat));
        assert(q[t] == line_cell(size, ax0, az0, ax1, az1, t as nat));
    }
    assert(p =~= q);
}

/// The way between two nodes is determined.
pub proof fn law_one_way(f: RoadView, a: GraphNode, b: GraphNode, p: Seq<i32>, q: Seq<i32>)
    requires
        way_found(f, a, b, p),
        way_found(f, a, b, q),
    ensures
        p == q,
{
    let s = searched(f, a.cell as int, b.cell as int);
    if s.len() < 2 {
        let (ax, az, bx, bz) = (a.ax as int, a.az as int, b.ax as int, b.az as int);
        if p.len() > 0 {
            lemma_line_unique(f.size, f.cells, ax, az, bx, bz, p, q);
        } else if q.len() > 0 {
            lemma_line_unique(f.size, f.cells, ax, az, bx, bz, q, p);
        } else {
            assert(p =~= q);
        }
    }
}

proof fn lemma_one_root(g: Group, r: int, s: int)
    requires
        g.is_densest(r),
        g.is_densest(s),
    ensures
        r == s,
{
    assert(g.pop(r) <= g.pop(s) && g.pop(s) <= g.pop(r));
}

proof fn lemma_edges_agree(
    g: Group,
    root: int,
    a: Seq<(usize, usize)>,
    b: Seq<(usize, usize)>,
    n: nat,
)
    requires
        a.len() == b.len(),
        n <= a.len(),
        forall|t: int| 0 <= t < a.len() ==> #[trigger] g.cheapest_join(root, a, t),
        forall|t: int| 0 <= t < b.len() ==> #[trigger] g.cheapest_join(root, b, t),
    ensures
        forall|t: int| 0 <= t < n ==> #[trigger] a[t] == b[t],
    decreases n,
{
    if n > 0 {
        let t = n - 1;
        lemma_edges_agree(g, root, a, b, t as nat);
        assert forall|i: int| g.in_tree(root, a, t, i) == #[trigger] g.in_tree(root, b, t, i) by {
            if i != root {
                if g.in_tree(root, a, t, i) {
                    let u = choose|u: int| 0 <= u < t && (#[trigger] a[u]).1 == i;
                    assert(b[u].1 == i);
                }
                if g.in_tree(root, b, t, i) {
                    let u = choose|u: int| 0 <= u < t && (#[trigger] b[u]).1 == i;
                    assert(a[u].1 == i);
                }
            }
        }
        let d = a[t];
        let e = b[t];
        assert(g.cheapest_join(root, a, t) && g.cheapest_join(root, b, t));
        assert(g.can_join(root, a, t, e.0 as int, e.1 as int));
        assert(g.can_join(root, b, t, d.0 as int, d.1 as int));
    }
}

proof fn lemma_one_trunk(
    plan: RoadPlan,
    g: Group,
    edges: (Seq<(usize, usize)>, Seq<(usize, usize)>),
    a: Seq<Attempt>,
    b: Seq<Attempt>,
)
    requires
        backbone_tried(plan, g, edges.0, a),
        backbone_tried(plan, g, edges.1, b),
    ensures
        a == b,
{
    let r = choose|r: int| #[trigger]
        g.is_densest(r) && forall|t: int|
            0 <= t < edges.0.len() ==> #[trigger] g.cheapest_join(r, edges.0, t);
    let s = choose|r: int| #[trigger]
        g.is_densest(r) && forall|t: int|
            0 <= t < edges.1.len() ==> #[trigger] g.cheapest_join(r, edges.1, t);
    lemma_one_root(g, r, s);
    lemma_edges_agree(g, r, edges.0, edges.1, edges.0.len());
    assert forall|t: int| 0 <= t < a.len() implies a[t] == b[t] by {
        assert(edges.0[t] == edges.1[t]);
        law_one_way(plan.f, a[t].a, a[t].b, a[t].path, b[t].path);
    }
    assert(a =~= b);
}

proof fn lemma_one_order(g: Group, i: int, a: Seq<usize>, b: Seq<usize>)
    requires
        g.is_by_nearness(i, a),
        g.is_by_nearness(i, b),
    ensures
        a == b,
{
    let before = |x: usize, y: usize|
        g.weight(i, x as int) < g.weight(i, y as int) || (g.weight(i, x as int) == g.weight(
            i,
            y as int,
        ) && x < y);
    assert forall|x: usize| #![auto] a.contains(x) <==> b.contains(x) by {
        if a.contains(x) {
            let p = choose|p: int| 0 <= p < a.len() && a[p] == x;
            assert(a[p] < g.members.len());
            assert(a.contains((x as int) as usize));
            assert(b.contains((x as int) as usize));
        }
        if b.contains(x) {
            let p = choose|p: int| 0 <= p < b.len() && b[p] == x;
            assert(b[p] < g.members.len());
            assert(b.contains((x as int) as usize));
            assert(a.contains((x as int) as usize));
        }
    }
    lemma_sorted_unique(a, b, before);
}

proof fn lemma_spurs_agree(
    plan: RoadPlan,
    g: Group,
    i: int,
    order: Seq<usize>,
    before: Seq<Attempt>,
    a: Seq<Attempt>,
    b: Seq<Attempt>,
    n: nat,
)
    requires
        n <= a.len(),
        n <= b.len(),
        forall|p: int|
            0 <= p < a.len() ==> #[trigger] spur_tried(plan, g, i, order, before, a, p),
        forall|p: int|
            0 <= p < b.len() ==> #[trigger] spur_tried(plan, g, i, order, before, b, p),
    ensures
        a.take(n as int) == b.take(n as int),
    decreases n,
{
    if n > 0 {
        let p = n - 1;
        lemma_spurs_agree(plan, g, i, order, before, a, b, p as nat);
        assert(spur_tried(plan, g, i, order, before, a, p));
        assert(spur_tried(plan, g, i, order, before, b, p));
        if a[p].tried {
            law_one_way(plan.f, a[p].a, a[p].b, a[p].path, b[p].path);
        } else {
            assert(a[p].path =~= b[p].path);
        }
        assert(a[p] == b[p]);
        assert(a.take(n as int) =~= a.take(p).push(a[p]));
        assert(b.take(n as int) =~= b.take(p).push(b[p]));
    } else {
        assert(a.take(0) =~= b.take(0));
    }
}

/// Of two runs of spurs neither is shorter than the other.
proof fn lemma_spurs_no_shorter(
    plan: RoadPlan,
    g: Group,
    i: int,
    order: Seq<usize>,
    before: Seq<Attempt>,
    a: Seq<Attempt>,
    b: Seq<Attempt>,
)
    requires
        b.len() <= order.len(),
        a.len() == order.len() || laid_count(a) >= 2,
        forall|p: int|
            0 <= p < a.len() ==> #[trigger] spur_tried(plan, g, i, order, before, a, p),
        forall|p: int|
            0 <= p < b.len() ==> #[trigger] spur_tried(plan, g, i, order, before, b, p),
    ensures
        a.len() >= b.len(),
{
    if a.len() < b.len() {
        let n = a.len();
        lemma_spurs_agree(plan, g, i, order, before, a, b, n);
        assert(a.take(n as int) =~= a);
        assert(spur_tried(plan, g, i, order, before, b, n as int));
        assert(laid_count(b.take(n as int)) < 2);
    }
}

proof fn lemma_one_run_of_spurs(
    plan: RoadPlan,
    g: Group,
    i: int,
    before: Seq<Attempt>,
    a: Seq<Attempt>,
    b: Seq<Attempt>,
)
    requires
        spurs_tried(plan, g, i, before, a),
        spurs_tried(plan, g, i, before, b),
    ensures
        a == b,
{
    if g.node(i).kind == NodeKind::Settlement {
        assert(a =~= b);
    } else {
        let order = choose|order: Seq<usize>|
            {
                &&& #[trigger] g.is_by_nearness(i, order)
                &&& a.len() <= order.len()
                &&& a.len() == order.len() || laid_count(a) >= 2
                &&& forall|p: int|
                    0 <= p < a.len() ==> #[trigger] spur_tried(plan, g, i, order, before, a, p)
            };
        let other = choose|order: Seq<usize>|
            {
                &&& #[trigger] g.is_by_nearness(i, order)
                &&& b.len() <= order.len()
                &&& b.len() == order.len() || laid_count(b) >= 2
                &&& forall|p: int|
                    0 <= p < b.len() ==> #[trigger] spur_tried(plan, g, i, order, before, b, p)
            };
        lemma_one_order(g, i, order, other);
        lemma_spurs_no_shorter(plan, g, i, order, before, a, b);
        lemma_spurs_no_shorter(plan, g, i, order, before, b, a);
        lemma_spurs_agree(plan, g, i, order, before, a, b, a.len());
        assert(a.take(a.len() as int) =~= a);
        assert(b.take(b.len() as int) =~= b);
    }
}

proof fn lemma_flat_agree(a: Seq<Seq<Attempt>>, b: Seq<Seq<Attempt>>, n: nat)
    requires
        forall|i: int| 0 <= i < n ==> #[trigger] a[i] == b[i],
    ensures
        spurs_flat(a, n) == spurs_flat(b, n),
    decreases n,
{
    if n > 0 {
        lemma_flat_agree(a, b, (n - 1) as nat);
        assert(a[n - 1] == b[n - 1]);
    }
}

/// The spurs of member `i`, after the trunk and the spurs of the members before it.
#[verifier::opaque]
spec fn run_at(
    plan: RoadPlan,
    g: Group,
    trunk: Seq<Attempt>,
    a: Seq<Seq<Attempt>>,
    i: int,
) -> bool {
    spurs_tried(plan, g, i, trunk + spurs_flat(a, i as nat), a[i])
}

proof fn lemma_runs_agree(
    plan: RoadPlan,
    g: Group,
    trunk: Seq<Attempt>,
    a: Seq<Seq<Attempt>>,
    b: Seq<Seq<Attempt>>,
    i: int,
)
    requires
        run_at(plan, g, trunk, a, i),
        run_at(plan, g, trunk, b, i),
        spurs_flat(a, i as nat) == spurs_flat(b, i as nat),
    ensures
        a[i] == b[i],
{
    reveal(run_at);
    lemma_one_run_of_spurs(plan, g, i, trunk + spurs_flat(a, i as nat), a[i], b[i]);
}

proof fn lemma_all_spurs_agree(
    plan: RoadPlan,
    g: Group,
    trunk: Seq<Attempt>,
    a: Seq<Seq<Attempt>>,
    b: Seq<Seq<Attempt>>,
    n: nat,
)
    requires
        n <= a.len(),
        n <= b.len(),
        forall|i: int| 0 <= i < a.len() ==> #[trigger] run_at(plan, g, trunk, a, i),
        forall|i: int| 0 <= i < b.len() ==> #[trigger] run_at(plan, g, trunk, b, i),
    ensures
        forall|i: int| 0 <= i < n ==> #[trigger] a[i] == b[i],
    decreases n,
{
    if n > 0 {
        let i = n - 1;
        lemma_all_spurs_agree(plan, g, trunk, a, b, i as nat);
        lemma_flat_agree(a, b, i as nat);
        assert(run_at(plan, g, trunk, a, i) && run_at(plan, g, trunk, b, i));
        lemma_runs_agree(plan, g, trunk, a, b, i);
    }
}

proof fn lemma_one_group(plan: RoadPlan, g: Group, a: Seq<Attempt>, b: Seq<Attempt>)
    requires
        group_tried(plan, g, a),
        group_tried(plan, g, b),
    ensures
        a == b,
{
    let (e0, t0, s0) = choose|
        edges: Seq<(usize, usize)>,
        trunk: Seq<Attempt>,
        spurs: Seq<Seq<Attempt>>,
    |
        {
            &&& #[trigger] backbone_tried(plan, g, edges, trunk)
            &&& spurs.len() == g.members.len()
            &&& forall|i: int|
                0 <= i < spurs.len() ==> spurs_tried(
                    plan,
                    g,
                    i,
                    trunk + spurs_flat(spurs, i as nat),
                    #[trigger] spurs[i],
                )
            &&& a == trunk + #[trigger] spurs_flat(spurs, spurs.len())
        };
    let (e1, t1, s1) = choose|
        edges: Seq<(usize, usize)>,
        trunk: Seq<Attempt>,
        spurs: Seq<Seq<Attempt>>,
    |
        {
            &&& #[trigger] backbone_tried(plan, g, edges, trunk)
            &&& spurs.len() == g.members.len()
            &&& forall|i: int|
                0 <= i < spurs.len() ==> spurs_tried(
                    plan,
                    g,
                    i,
                    trunk + spurs_flat(spurs, i as nat),
                    #[trigger] spurs[i],
                )
            &&& b == trunk + #[trigger] spurs_flat(spurs, spurs.len())
        };
    lemma_one_trunk(plan, g, (e0, e1), t0, t1);
    assert forall|i: int| 0 <= i < s0.len() implies #[trigger] run_at(plan, g, t0, s0, i) by {
        reveal(run_at);
        assert(spurs_tried(plan, g, i, t0 + spurs_flat(s0, i as nat), s0[i]));
    }
    assert forall|i: int| 0 <= i < s1.len() implies #[trigger] run_at(plan, g, t0, s1, i) by {
        reveal(run_at);
        assert(spurs_tried(plan, g, i, t1 + spurs_flat(s1, i as nat), s1[i]));
    }
    lemma_all_spurs_agree(plan, g, t0, s0, s1, s0.len());
    lemma_flat_agree(s0, s1, s0.len());
}

proof fn lemma_one_membership(nodes: Seq<GraphNode>, mass: i32, a: Seq<usize>, b: Seq<usize>)
    requires
        is_mass_members(nodes, mass, a),
        is_mass_members(nodes, mass, b),
    ensures
        a == b,
{
    let before = |x: usize, y: usize|
        nodes[x as int].id < nodes[y as int].id || (nodes[x as int].id == nodes[y as int].id && x
            < y);
    assert forall|x: usize| #![auto] a.contains(x) <==> b.contains(x) by {
        if a.contains(x) {
            let p = choose|p: int| 0 <= p < a.len() && a[p] == x;
            assert(a[p] < nodes.len());
            assert(a.contains((x as int) as usize));
            assert(b.contains((x as int) as usize));
        }
        if b.contains(x) {
            let p = choose|p: int| 0 <= p < b.len() && b[p] == x;
            assert(b[p] < nodes.len());
            assert(b.contains((x as int) as usize));
            assert(a.contains((x as int) as usize));
        }
    }
    lemma_sorted_unique(a, b, before);
}

proof fn lemma_one_mass(
    plan: RoadPlan,
    nodes: Seq<GraphNode>,
    mass: i32,
    a: Seq<Attempt>,
    b: Seq<Attempt>,
)
    requires
        mass_tried(plan, nodes, mass, a),
        mass_tried(plan, nodes, mass, b),
    ensures
        a == b,
{
    let m0 = choose|members: Seq<usize>|
        #[trigger] is_mass_members(nodes, mass, members) && if members.len() < 2 {
            a.len() == 0
        } else {
            group_tried(
                plan,
                Group { size: plan.f.size, cells: plan.f.cells, nodes, members },
                a,
            )
        };
    let m1 = choose|members: Seq<usize>|
        #[trigger] is_mass_members(nodes, mass, members) && if members.len() < 2 {
            b.len() == 0
        } else {
            group_tried(
                plan,
                Group { size: plan.f.size, cells: plan.f.cells, nodes, members },
                b,
            )
        };
    lemma_one_membership(nodes, mass, m0, m1);
    if m0.len() < 2 {
        assert(a =~= b);
    } else {
        lemma_one_group(
            plan,
            Group { size: plan.f.size, cells: plan.f.cells, nodes, members: m0 },
            a,
            b,
        );
    }
}

proof fn lemma_masses_agree(nodes: Seq<GraphNode>, a: Seq<i32>, b: Seq<i32>, n: nat)
    requires
        is_mass_list(nodes, a),
        is_mass_list(nodes, b),
        n <= a.len(),
        n <= b.len(),
    ensures
        a.take(n as int) == b.take(n as int),
    decreases n,
{
    if n > 0 {
        let m = n - 1;
        lemma_masses_agree(nodes, a, b, m as nat);
        assert(has_first(nodes, a, m, nodes.len() as int));
        assert(has_first(nodes, b, m, nodes.len() as int));
        let x = choose|x: int| 0 <= x < nodes.len() && #[trigger] first_of_mass(nodes, a, m, x);
        let y = choose|y: int| 0 <= y < nodes.len() && #[trigger] first_of_mass(nodes, b, m, y);
        assert(!a.take(m).contains(a[m])) by {
            if a.take(m).contains(a[m]) {
                let k = choose|k: int| 0 <= k < m && a.take(m)[k] == a[m];
                assert(a[k] == a[m]);
            }
        }
        assert(!b.take(m).contains(b[m])) by {
            if b.take(m).contains(b[m]) {
                let k = choose|k: int| 0 <= k < m && b.take(m)[k] == b[m];
                assert(b[k] == b[m]);
            }
        }
        if x < y {
            assert(b.take(m).contains(nodes[x].landmass));
        }
        if y < x {
            assert(a.take(m).contains(nodes[y].landmass));
        }
        assert(a.take(n as int) =~= a.take(m).push(a[m]));
        assert(b.take(n as int) =~= b.take(m).push(b[m]));
    } else {
        assert(a.take(0) =~= b.take(0));
    }
}

proof fn lemma_masses_no_fewer(nodes: Seq<GraphNode>, a: Seq<i32>, b: Seq<i32>)
    requires
        is_mass_list(nodes, a),
        is_mass_list(nodes, b),
    ensures
        a.len() >= b.len(),
{
    if a.len() < b.len() {
        let n = a.len() as int;
        lemma_masses_agree(nodes, a, b, a.len());
        assert(a.take(n) =~= a);
        assert(has_first(nodes, b, n, nodes.len() as int));
        let y = choose|y: int| 0 <= y < nodes.len() && #[trigger] first_of_mass(nodes, b, n, y);
        assert(a.contains(nodes[y].landmass));
        let k = choose|k: int| 0 <= k < a.len() && a[k] == nodes[y].landmass;
        assert(b.take(n)[k] == b[n]);
        assert(b[k] == b[n]);
    }
}

/// Roads are determined: two roadworks by the same plan over the same nodes leave the same
/// graph, with the same ports, links and backbone.
pub proof fn law_same_land_same_roads(
    plan: RoadPlan,
    nodes: Seq<GraphNode>,
    before: RoadsView,
    a: RoadsView,
    b: RoadsView,
)
    requires
        roads_built(plan, nodes, before, a),
        roads_built(plan, nodes, before, b),
    ensures
        a == b,
{
    let st = RoadState { graph: before, serial: 0 };
    let (m0, t0) = choose|masses: Seq<i32>, tried: Seq<Seq<Attempt>>|
        {
            &&& #[trigger] is_mass_list(nodes, masses)
            &&& tried.len() == masses.len()
            &&& forall|m: int|
                0 <= m < masses.len() ==> mass_tried(plan, nodes, masses[m], #[trigger] tried[m])
            &&& plan.after_all(st, #[trigger] spurs_flat(tried, tried.len())).graph == a
        };
    let (m1, t1) = choose|masses: Seq<i32>, tried: Seq<Seq<Attempt>>|
        {
            &&& #[trigger] is_mass_list(nodes, masses)
            &&& tried.len() == masses.len()
            &&& forall|m: int|
                0 <= m < masses.len() ==> mass_tried(plan, nodes, masses[m], #[trigger] tried[m])
            &&& plan.after_all(st, #[trigger] spurs_flat(tried, tried.len())).graph == b
        };
    lemma_masses_no_fewer(nodes, m0, m1);
    lemma_masses_no_fewer(nodes, m1, m0);
    lemma_masses_agree(nodes, m0, m1, m0.len());
    assert(m0.take(m0.len() as int) =~= m0);
    assert(m1.take(m1.len() as int) =~= m1);
    assert forall|m: int| 0 <= m < t0.len() implies #[trigger] t0[m] == t1[m] by {
        lemma_one_mass(plan, nodes, m0[m], t0[m], t1[m]);
    }
    lemma_flat_agree(t0, t1, t0.len());
}

} // verus!
