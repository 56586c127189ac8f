//! Which nodes roads join: a spanning tree for each landmass, and spurs.

use crate::atlas::cell_map::map_get;
use crate::atlas::features::{NodeKind, RoadClass};
use crate::atlas::grid::{
    adjacent, cell_number, cell_x, cell_z, inside, is_cell, side_ok, step, lemma_cell_coords,
    lemma_coords_of_number, lemma_side, lemma_step_coords,
};
use crate::atlas::pack::{cell_pop, cell_valid, population};
use crate::atlas::rivers::abs_of;
use crate::atlas::road_search::{
    path_cells, road_astar, search_result, RoadField, RoadView,
};
use crate::atlas::roads::{
    beside_river, king_path, king_step, line_result, ordered_pair, pair_key, river_adjacency_mask,
    road_bresenham, stamp_road_path, RoadGraph, RoadStamp, RoadsView, lemma_king_step,
};
use crate::atlas::types::{GraphNode, Link};
use crate::rounding::{
    law_rounding_keeps_side, law_rounding_settles, law_rounding_stays_close, lemma_grain_of,
    lemma_in_grains, lemma_ratio, ratio_to, round_ratio, round_single, round_to, rounded_to,
    single, SINGLE,
};
use rustc_hash::FxHashMap;
use vstd::arithmetic::div_mod::{lemma_fundamental_div_mod, lemma_mod_multiples_basic};
use vstd::arithmetic::power2::{
    lemma2_to64, lemma2_to64_rest, lemma_pow2_adds, lemma_pow2_pos,
    lemma_pow2_strictly_increases, lemma_pow2_unfold, pow2,
};
use vstd::prelude::*;

verus! {

/// A node whose cell is the one at its place, on the grid.
pub open spec fn node_placed(size: int, node: GraphNode) -> bool {
    inside(size, node.ax as int, node.az as int) && node.cell == cell_number(
        size,
        node.ax as int,
        node.az as int,
    )
}

/// How dear a road from a node is, in parts of 2^24: dense places are cheaper, from all of
/// it down to 0.72, settlements cheaper still, 0.85 of that. Each sum, product and ratio is
/// rounded to 24 significant bits; the two divisions are exact.
pub open spec fn node_factor(cells: Seq<i32>, node: GraphNode) -> int {
    let density = ratio_to(
        cell_pop(cells[node.cell as int]) * 0x1_0000_0000,
        15,
        SINGLE as int,
    );
    let thinned = single(0x100_0000_0000_0000 + single(-4_697_620 * density)) / 0x1_0000_0000;
    if node.kind == NodeKind::Settlement {
        single(thinned * 14_260_634) / 0x100_0000
    } else {
        thinned
    }
}

/// How dear a road between two nodes is: their distance along rows and columns, times the
/// factor of the first, times the factor of the second, each product rounded.
#[verifier::opaque]
pub open spec fn pair_weight(cells: Seq<i32>, a: GraphNode, b: GraphNode) -> int {
    single(
        single((abs_of(a.ax - b.ax) + abs_of(a.az - b.az)) * node_factor(cells, a)) * node_factor(
            cells,
            b,
        ),
    )
}

/// A number of 24 significant bits from half of `unit * 2^24` on is a multiple of `unit`.
proof fn lemma_multiple(x: int, e: nat)
    requires
        single(x) == x,
        pow2(e) * 0x80_0000 <= x,
    ensures
        x % (pow2(e) as int) == 0,
{
    let top = SINGLE as int;
    let j = lemma_grain_of(x, top);
    lemma_pow2_pos(e);
    reveal(rounded_to);
    lemma_in_grains(x, pow2(j) as int);
    if j < e {
        lemma_pow2_strictly_increases(j, e);
        lemma_pow2_unfold(e);
        lemma_pow2_adds(j, (e - j) as nat);
        lemma_pow2_unfold((e - j) as nat);
        lemma_pow2_pos((e - j - 1) as nat);
        lemma_pow2_pos(j);
        let w = pow2(j) as int;
        let v = pow2((e - j) as nat) as int;
        assert(w * 2 <= w * v) by (nonlinear_arith)
            requires
                v >= 2,
                w > 0,
        ;
    } else {
        lemma_pow2_adds(e, (j - e) as nat);
        let w = pow2(e) as int;
        let v = pow2((j - e) as nat) as int;
        let q = x / (w * v);
        lemma_fundamental_div_mod(x, w * v);
        assert((w * v) * q == (v * q) * w) by (nonlinear_arith);
        lemma_mod_multiples_basic(v * q, w);
    }
}

/// The factor of a node lies from 0.6 to one, and the divisions in it are exact.
pub proof fn law_node_factors(cells: Seq<i32>, node: GraphNode)
    requires
        0 <= cell_pop(cells[node.cell as int]) <= 15,
    ensures
        0x99_0000 <= node_factor(cells, node) <= 0x100_0000,
        ({
            let density = ratio_to(
                cell_pop(cells[node.cell as int]) * 0x1_0000_0000,
                15,
                SINGLE as int,
            );
            let sum = single(0x100_0000_0000_0000 + single(-4_697_620 * density));
            &&& 0 <= density <= 0x1_0000_0100
            &&& 0 <= sum <= 0x100_0000_0000_0000
            &&& sum % 0x1_0000_0000 == 0
            &&& single((sum / 0x1_0000_0000) * 14_260_634) % 0x100_0000 == 0
        }),
{
    let top = SINGLE as int;
    let pop = cell_pop(cells[node.cell as int]) as int;
    let n = pop * 0x1_0000_0000;
    let density = ratio_to(n, 15, top);
    lemma_ratio(n, 15, top);
    lemma2_to64();
    lemma2_to64_rest();
    let j = lemma_grain_of(n / 15, top);
    let fall = -4_697_620 * density;
    law_rounding_stays_close(fall, top);
    law_rounding_stays_close(0x100_0000_0000_0000 + single(fall), top);
    let sum = single(0x100_0000_0000_0000 + single(fall));
    law_rounding_keeps_side(0x100_0000_0000_0000 + single(fall), 1, 56, top);
    law_rounding_settles(0x100_0000_0000_0000 + single(fall), top);
    lemma_multiple(sum, 32);
    let thinned = sum / 0x1_0000_0000;
    let product = thinned * 14_260_634;
    law_rounding_stays_close(product, top);
    law_rounding_settles(product, top);
    lemma_multiple(single(product), 24);
}

fn road_node_factor(cells: &[i32], node: &GraphNode) -> (r: i64)
    requires
        0 <= node.cell < cells@.len(),
    ensures
        r == node_factor(cells@, *node),
        0 < r <= 0x100_0000,
{
    let pop: i32 = population(cells[node.cell as usize]);
    proof {
        law_node_factors(cells@, *node);
    }
    let density: i64 = round_ratio(pop as u128 * 0x1_0000_0000, 15, SINGLE) as i64;
    let ghost fall = -4_697_620 * density;
    proof {
        law_rounding_stays_close(fall, SINGLE as int);
    }
    let sum: i64 = round_single(0x100_0000_0000_0000 + round_single(-4_697_620 * density));
    let thinned: i64 = sum / 0x1_0000_0000;
    if node.kind == NodeKind::Settlement {
        proof {
            law_rounding_stays_close(thinned * 14_260_634, SINGLE as int);
        }
        round_single(thinned * 14_260_634) / 0x100_0000
    } else {
        thinned
    }
}

pub fn road_pair_weight(size: usize, cells: &[i32], a: &GraphNode, b: &GraphNode) -> (r: i128)
    requires
        side_ok(size as int),
        cells@.len() == size * size,
        node_placed(size as int, *a),
        node_placed(size as int, *b),
    ensures
        r == pair_weight(cells@, *a, *b),
{
    proof {
        reveal(pair_weight);
        lemma_coords_of_number(size as int, a.ax as int, a.az as int);
        lemma_coords_of_number(size as int, b.ax as int, b.az as int);
    }
    let dx: i64 = if a.ax < b.ax {
        (b.ax - a.ax) as i64
    } else {
        (a.ax - b.ax) as i64
    };
    let dz: i64 = if a.az < b.az {
        (b.az - a.az) as i64
    } else {
        (a.az - b.az) as i64
    };
    let fa: i64 = road_node_factor(cells, a);
    let fb: i64 = road_node_factor(cells, b);
    let d: i64 = dx + dz;
    let ghost p = d * fa;
    assert(0 <= p <= 100_000 * 0x100_0000) by (nonlinear_arith)
        requires
            0 <= d <= 100_000,
            0 <= fa <= 0x100_0000,
            p == d * fa,
    ;
    proof {
        law_rounding_stays_close(p, SINGLE as int);
    }
    let near: i64 = round_single(d * fa);
    let ghost q = near * fb;
    assert(0 <= q <= 0x200_0000_0000 * 0x100_0000) by (nonlinear_arith)
        requires
            0 <= near <= 0x200_0000_0000,
            0 <= fb <= 0x100_0000,
            q == near * fb,
    ;
    proof {
        law_rounding_stays_close(q, SINGLE as int);
    }
    round_to(near as i128 * fb as i128, SINGLE)
}

/// A group of nodes to be joined.
pub ghost struct Group {
    pub size: int,
    pub cells: Seq<i32>,
    pub nodes: Seq<GraphNode>,
    /// Places in `nodes`.
    pub members: Seq<usize>,
}

impl Group {
    pub open spec fn well_formed(self) -> bool {
        &&& side_ok(self.size)
        &&& self.cells.len() == self.size * self.size
        &&& forall|i: int|
            0 <= i < self.nodes.len() ==> node_placed(self.size, #[trigger] self.nodes[i])
        &&& forall|i: int|
            0 <= i < self.members.len() ==> (#[trigger] self.members[i]) < self.nodes.len()
    }

    pub open spec fn node(self, i: int) -> GraphNode {
        self.nodes[self.members[i] as int]
    }

    pub open spec fn weight(self, i: int, j: int) -> int {
        pair_weight(self.cells, self.node(i), self.node(j))
    }

    pub open spec fn pop(self, i: int) -> int {
        cell_pop(self.cells[self.node(i).cell as int]) as int
    }

    /// The member in the most populated cell, the first of equals.
    pub open spec fn is_densest(self, r: int) -> bool {
        &&& 0 <= r < self.members.len()
        &&& forall|i: int|
            0 <= i < self.members.len() ==> #[trigger] self.pop(i) <= self.pop(r) && (i < r
                ==> self.pop(i) < self.pop(r))
    }

    /// Member `i` is joined to `root` by the first `t` edges.
    pub open spec fn in_tree(self, root: int, edges: Seq<(usize, usize)>, t: int, i: int) -> bool {
        i == root || exists|u: int| 0 <= u < t && (#[trigger] edges[u]).1 == i
    }

    /// A pair that would join one more member.
    pub open spec fn can_join(
        self,
        root: int,
        edges: Seq<(usize, usize)>,
        t: int,
        i: int,
        j: int,
    ) -> bool {
        &&& 0 <= i < self.members.len()
        &&& 0 <= j < self.members.len()
        &&& self.in_tree(root, edges, t, i)
        &&& !self.in_tree(root, edges, t, j)
    }

    /// The `t`-th edge is the cheapest that joins one more member, the first of
    /// equals.
    pub open spec fn cheapest_join(self, root: int, edges: Seq<(usize, usize)>, t: int) -> bool {
        let e = edges[t];
        &&& self.can_join(root, edges, t, e.0 as int, e.1 as int)
        &&& forall|i: int, j: int| #[trigger]
            self.can_join(root, edges, t, i, j) ==> {
                &&& self.weight(e.0 as int, e.1 as int) <= self.weight(i, j)
                &&& i < e.0 || (i == e.0 && j < e.1) ==> self.weight(e.0 as int, e.1 as int)
                    < self.weight(i, j)
            }
    }

    /// The edges that join all members, the cheapest first from the densest on.
    pub open spec fn is_backbone(self, edges: Seq<(usize, usize)>) -> bool {
        &&& edges.len() == self.members.len() - 1
        &&& exists|root: int| #[trigger]
            self.is_densest(root) && forall|t: int|
                0 <= t < edges.len() ==> #[trigger] self.cheapest_join(root, edges, t)
    }

    /// The other members, nearest first, in member order where equally near.
    pub open spec fn is_by_nearness(self, i: int, order: Seq<usize>) -> bool {
        &&& order.no_duplicates()
        &&& forall|j: int|
            0 <= j < self.members.len() ==> (j != i <==> #[trigger] order.contains(j as usize))
        &&& forall|p: int| 0 <= p < order.len() ==> (#[trigger] order[p]) < self.members.len()
        &&& forall|p: int, q: int|
            #![trigger order[p], order[q]]
            0 <= p < q < order.len() ==> self.weight(i, order[p] as int) < self.weight(
                i,
                order[q] as int,
            ) || (self.weight(i, order[p] as int) == self.weight(i, order[q] as int) && order[p]
                < order[q])
    }
}

/// The group that exec arguments describe.
pub open spec fn group_of(
    size: usize,
    cells: &[i32],
    nodes: &[GraphNode],
    members: &Vec<usize>,
) -> Group {
    Group { size: size as int, cells: cells@, nodes: nodes@, members: members@ }
}

/// The member in the most populated cell.
pub fn densest_node_index(
    size: usize,
    cells: &[i32],
    nodes: &[GraphNode],
    members: &Vec<usize>,
) -> (r: usize)
    requires
        group_of(size, cells, nodes, members).well_formed(),
        members@.len() > 0,
    ensures
        group_of(size, cells, nodes, members).is_densest(r as int),
{
    let ghost g = group_of(size, cells, nodes, members);
    let mut best: usize = 0;
    let mut best_pop: i32 = -1;
    let mut i: usize = 0;
    while i < members.len()
        invariant
            i <= members@.len(),
            members@.len() > 0,
            g.well_formed(),
            g == group_of(size, cells, nodes, members),
            best < members@.len(),
            i == 0 ==> best == 0 && best_pop == -1,
            i > 0 ==> best < i && best_pop == g.pop(best as int),
            forall|j: int|
                0 <= j < i ==> #[trigger] g.pop(j) <= best_pop && (j < best ==> g.pop(j) < best_pop),
        decreases members@.len() - i,
    {
        let m: usize = members[i];
        assert(m < nodes@.len());
        assert(node_placed(g.size, nodes@[m as int]));
        proof {
            lemma_coords_of_number(
                g.size,
                nodes@[m as int].ax as int,
                nodes@[m as int].az as int,
            );
        }
        let pop: i32 = population(cells[nodes[m].cell as usize]);
        assert(pop == g.pop(i as int));
        if pop > best_pop {
            best_pop = pop;
            best = i;
        }
        i += 1;
    }
    best
}

fn member_weight(
    size: usize,
    cells: &[i32],
    nodes: &[GraphNode],
    members: &Vec<usize>,
    i: usize,
    j: usize,
) -> (r: i128)
    requires
        group_of(size, cells, nodes, members).well_formed(),
        i < members@.len(),
        j < members@.len(),
    ensures
        r == group_of(size, cells, nodes, members).weight(i as int, j as int),
{
    let ghost g = group_of(size, cells, nodes, members);
    let mi: usize = members[i];
    let mj: usize = members[j];
    assert(g.members[i as int] < g.nodes.len() && g.members[j as int] < g.nodes.len());
    assert(node_placed(g.size, g.nodes[mi as int]));
    assert(node_placed(g.size, g.nodes[mj as int]));
    road_pair_weight(size, cells, &nodes[mi], &nodes[mj])
}

/// A number below `n` that a list of fewer than `n` does not hold.
proof fn lemma_one_missing(s: Seq<usize>, n: int) -> (j: int)
    requires
        s.len() < n <= usize::MAX,
    ensures
        0 <= j < n,
        !s.contains(j as usize),
{
    if forall|j: int| 0 <= j < n ==> #[trigger] s.contains(j as usize) {
        let t = s.map_values(|x: usize| x as int);
        let all = vstd::set_lib::set_int_range(0, n);
        vstd::set_lib::lemma_int_range(0, n);
        t.lemma_cardinality_of_set();
        assert forall|x: int| all.contains(x) implies t.to_set().contains(x) by {
            assert(s.contains(x as usize));
            let k = choose|k: int| 0 <= k < s.len() && s[k] == x as usize;
            assert(t[k] == x);
        }
        vstd::set_lib::lemma_len_subset(all, t.to_set());
        0
    } else {
        choose|j: int| 0 <= j < n && !#[trigger] s.contains(j as usize)
    }
}

/// Joins the members into a tree, cheapest edge first from the densest member on.
#[verifier::loop_isolation(false)]
pub fn backbone_edges(
    size: usize,
    cells: &[i32],
    nodes: &[GraphNode],
    members: &Vec<usize>,
) -> (edges: Vec<(usize, usize)>)
    requires
        group_of(size, cells, nodes, members).well_formed(),
        members@.len() > 0,
    ensures
        group_of(size, cells, nodes, members).is_backbone(edges@),
{
    let ghost g = group_of(size, cells, nodes, members);
    let n: usize = members.len();
    let root: usize = densest_node_index(size, cells, nodes, members);
    let ghost rt = root as int;
    let mut in_tree: Vec<bool> = vec![false; n];
    in_tree.set(root, true);
    let mut edges: Vec<(usize, usize)> = Vec::new();
    let ghost mut joined: Seq<usize> = seq![root];
    assert(joined[0] == root);
    while edges.len() < n - 1
        invariant
            edges@.len() <= n - 1,
            in_tree@.len() == n,
            joined.len() == edges@.len() + 1,
            forall|i: int| 0 <= i < n ==> (#[trigger] in_tree@[i] <==> joined.contains(i as usize)),
            forall|i: int|
                0 <= i < n ==> (#[trigger] in_tree@[i] <==> g.in_tree(
                    rt,
                    edges@,
                    edges@.len() as int,
                    i,
                )),
            forall|t: int| 0 <= t < edges@.len() ==> #[trigger] g.cheapest_join(rt, edges@, t),
        decreases n - edges@.len(),
    {
        let ghost t = edges@.len() as int;
        let ghost before = edges@;
        let mut best: Option<(usize, usize)> = None;
        let mut best_w: i128 = 0;
        let mut i: usize = 0;
        while i < n
            invariant
                i <= n,
                match best {
                    Some(b) => {
                        &&& b.0 < i
                        &&& g.can_join(rt, before, t, b.0 as int, b.1 as int)
                        &&& best_w == g.weight(b.0 as int, b.1 as int)
                        &&& forall|x: int, y: int| #[trigger]
                            g.can_join(rt, before, t, x, y) && x < i ==> {
                                &&& best_w <= g.weight(x, y)
                                &&& x < b.0 || (x == b.0 && y < b.1) ==> best_w < g.weight(x, y)
                            }
                    },
                    None => forall|x: int, y: int| x < i ==> !#[trigger] g.can_join(
                        rt,
                        before,
                        t,
                        x,
                        y,
                    ),
                },
            decreases n - i,
        {
            let mut j: usize = 0;
            while j < n
                invariant
                    j <= n,
                    match best {
                        Some(b) => {
                            &&& b.0 < i || (b.0 == i && b.1 < j)
                            &&& g.can_join(rt, before, t, b.0 as int, b.1 as int)
                            &&& best_w == g.weight(b.0 as int, b.1 as int)
                            &&& forall|x: int, y: int| #[trigger]
                                g.can_join(rt, before, t, x, y) && (x < i || (x == i && y < j)) ==> {
                                    &&& best_w <= g.weight(x, y)
                                    &&& x < b.0 || (x == b.0 && y < b.1) ==> best_w < g.weight(
                                        x,
                                        y,
                                    )
                                }
                        },
                        None => forall|x: int, y: int|
                            (x < i || (x == i && y < j)) ==> !#[trigger] g.can_join(
                                rt,
                                before,
                                t,
                                x,
                                y,
                            ),
                    },
                decreases n - j,
            {
                assert(g.can_join(rt, before, t, i as int, j as int) == (in_tree@[i as int]
                    && !in_tree@[j as int]));
                if in_tree[i] && !in_tree[j] {
                    let w: i128 = member_weight(size, cells, nodes, members, i, j);
                    if best.is_none() || w < best_w {
                        best_w = w;
                        best = Some((i, j));
                    }
                }
                j += 1;
            }
            i += 1;
        }
        proof {
            let out = lemma_one_missing(joined, n as int);
            assert(!in_tree@[out]);
            assert(in_tree@[rt]);
            assert(g.can_join(rt, before, t, rt, out));
        }
        let (i, j) = best.unwrap();
        assert(g.can_join(rt, before, t, i as int, j as int));
        let ghost tree_b = in_tree@;
        let ghost joined_b = joined;
        in_tree.set(j, true);
        edges.push((i, j));
        proof {
            joined = joined.push(j);
            assert forall|x: int| 0 <= x < n implies (#[trigger] in_tree@[x] <==> joined.contains(
                x as usize,
            )) by {
                assert(tree_b[x] <==> joined_b.contains(x as usize));
                if joined_b.contains(x as usize) {
                    let k = choose|k: int| 0 <= k < joined_b.len() && joined_b[k] == x as usize;
                    assert(joined[k] == x as usize);
                }
                if x == j {
                    assert(joined[joined_b.len() as int] == x as usize);
                } else if joined.contains(x as usize) {
                    let k = choose|k: int| 0 <= k < joined.len() && joined[k] == x as usize;
                    assert(joined_b[k] == x as usize);
                }
            }
            assert forall|x: int| 0 <= x < n implies (#[trigger] in_tree@[x] <==> g.in_tree(
                rt,
                edges@,
                t + 1,
                x,
            )) by {
                assert(tree_b[x] <==> g.in_tree(rt, before, t, x));
                if tree_b[x] && x != rt {
                    let u = choose|u: int| 0 <= u < t && (#[trigger] before[u]).1 == x;
                    assert(edges@[u].1 == x);
                }
                if x == j {
                    assert(edges@[t].1 == x);
                }
                if g.in_tree(rt, edges@, t + 1, x) && x != rt && x != j {
                    let u = choose|u: int| 0 <= u < t + 1 && (#[trigger] edges@[u]).1 == x;
                    assert(before[u].1 == x);
                }
            }
            assert forall|u: int| 0 <= u < edges@.len() implies #[trigger] g.cheapest_join(
                rt,
                edges@,
                u,
            ) by {
                assert forall|x: int| #[trigger] g.in_tree(rt, edges@, u, x) == g.in_tree(
                    rt,
                    before,
                    u,
                    x,
                ) by {
                    if g.in_tree(rt, edges@, u, x) && x != rt {
                        let w = choose|w: int| 0 <= w < u && (#[trigger] edges@[w]).1 == x;
                        assert(before[w].1 == x);
                    }
                    if g.in_tree(rt, before, u, x) && x != rt {
                        let w = choose|w: int| 0 <= w < u && (#[trigger] before[w]).1 == x;
                        assert(edges@[w].1 == x);
                    }
                }
                assert forall|x: int, y: int| #[trigger]
                    g.can_join(rt, edges@, u, x, y) implies g.can_join(rt, before, u, x, y) by {
                }
                if u < t {
                    assert(g.cheapest_join(rt, before, u));
                    assert(edges@[u] == before[u]);
                }
            }
        }
    }
    assert(g.is_backbone(edges@));
    edges
}


/// `order` lists the marked numbers below `upto`, by weight and then by number.
spec fn listed_by_weight(ws: Seq<int>, ok: Seq<bool>, order: Seq<usize>, upto: int) -> bool {
    &&& order.no_duplicates()
    &&& forall|x: int|
        0 <= x < ws.len() ==> (ok[x] && x < upto <==> #[trigger] order.contains(x as usize))
    &&& forall|p: int| 0 <= p < order.len() ==> (#[trigger] order[p]) < upto
    &&& forall|p: int, q: int|
        #![trigger order[p], order[q]]
        0 <= p < q < order.len() ==> ws[order[p] as int] < ws[order[q] as int] || (
        ws[order[p] as int] == ws[order[q] as int] && order[p] < order[q])
}

proof fn lemma_insert_by_weight(
    ws: Seq<int>,
    ok: Seq<bool>,
    order: Seq<usize>,
    j: usize,
    at: int,
)
    requires
        listed_by_weight(ws, ok, order, j as int),
        j < ws.len() <= usize::MAX,
        ok[j as int],
        0 <= at <= order.len(),
        at > 0 ==> ws[order[at - 1] as int] <= ws[j as int],
        forall|p: int| at <= p < order.len() ==> ws[#[trigger] order[p] as int] > ws[j as int],
    ensures
        listed_by_weight(ws, ok, order.insert(at, j), j + 1),
{
    let now = order.insert(at, j);
    assert forall|p: int| 0 <= p < at implies ws[#[trigger] order[p] as int] <= ws[j as int] by {
        if p < at - 1 {
            assert(ws[order[p] as int] <= ws[order[at - 1] as int]);
        }
    }
    assert forall|p: int| 0 <= p < now.len() implies (#[trigger] now[p]) < j + 1 && (p == at
        <==> now[p] == j) by {
        if p < at {
            assert(now[p] == order[p]);
        } else if p > at {
            assert(now[p] == order[p - 1]);
        }
    }
    assert forall|p: int, q: int|
        #![trigger now[p], now[q]]
        0 <= p < q < now.len() implies ws[now[p] as int] < ws[now[q] as int] || (ws[now[p] as int]
        == ws[now[q] as int] && now[p] < now[q]) by {
        let pp = if p < at { p } else { p - 1 };
        let qq = if q < at { q } else { q - 1 };
        if p == at {
            assert(now[q] == order[qq]);
        } else if q == at {
            assert(now[p] == order[pp]);
            assert(order[pp] < j);
        } else {
            assert(now[p] == order[pp] && now[q] == order[qq]);
        }
    }
    assert forall|p: int, q: int| 0 <= p < now.len() && 0 <= q < now.len() && p != q implies now[p]
        != now[q] by {
        let pp = if p < at { p } else { p - 1 };
        let qq = if q < at { q } else { q - 1 };
        if p != at && q != at {
            assert(now[p] == order[pp] && now[q] == order[qq]);
        }
    }
    assert forall|x: int| 0 <= x < ws.len() implies (ok[x] && x < j + 1
        <==> #[trigger] now.contains(x as usize)) by {
        assert(ok[x] && x < j <==> order.contains(x as usize));
        if order.contains(x as usize) {
            let k = choose|k: int| 0 <= k < order.len() && order[k] == x as usize;
            assert(now[if k < at { k } else { k + 1 }] == x as usize);
        }
        if x == j {
            assert(now[at] == x as usize);
        } else if now.contains(x as usize) {
            let k = choose|k: int| 0 <= k < now.len() && now[k] == x as usize;
            assert(order[if k < at { k } else { k - 1 }] == x as usize);
        }
    }
}

/// The other members, nearest first.
pub fn members_by_nearness(
    size: usize,
    cells: &[i32],
    nodes: &[GraphNode],
    members: &Vec<usize>,
    i: usize,
) -> (order: Vec<usize>)
    requires
        group_of(size, cells, nodes, members).well_formed(),
        i < members@.len(),
    ensures
        group_of(size, cells, nodes, members).is_by_nearness(i as int, order@),
{
    let ghost g = group_of(size, cells, nodes, members);
    let n: usize = members.len();
    let ghost ws = Seq::new(n as nat, |x: int| g.weight(i as int, x));
    let ghost ok = Seq::new(n as nat, |x: int| x != i);
    let mut order: Vec<usize> = Vec::new();
    let mut weights: Vec<i128> = Vec::new();
    let mut j: usize = 0;
    while j < n
        invariant
            j <= n,
            i < n,
            n == members@.len(),
            g == group_of(size, cells, nodes, members),
            g.well_formed(),
            ws == Seq::new(n as nat, |x: int| g.weight(i as int, x)),
            ok == Seq::new(n as nat, |x: int| x != i),
            order@.len() == weights@.len(),
            listed_by_weight(ws, ok, order@, j as int),
            forall|p: int|
                #![trigger weights@[p]]
                0 <= p < order@.len() ==> weights@[p] == ws[order@[p] as int],
        decreases n - j,
    {
        if j != i {
            let w: i128 = member_weight(size, cells, nodes, members, i, j);
            assert(w == ws[j as int]);
            let mut at: usize = order.len();
            while at > 0 && weights[at - 1] > w
                invariant
                    at <= order@.len(),
                    order@.len() == weights@.len(),
                    forall|p: int| at <= p < order@.len() ==> #[trigger] weights@[p] > w,
                decreases at,
            {
                at -= 1;
            }
            let ghost before = order@;
            let ghost weights_b = weights@;
            proof {
                assert forall|p: int| at <= p < before.len() implies ws[#[trigger] before[p] as int]
                    > ws[j as int] by {
                    assert(weights_b[p] > w);
                }
                lemma_insert_by_weight(ws, ok, before, j, at as int);
            }
            order.insert(at, j);
            weights.insert(at, w);
            proof {
                assert forall|p: int|
                    #![trigger weights@[p]]
                    0 <= p < order@.len() implies weights@[p] == ws[order@[p] as int] by {
                    if p < at {
                        assert(weights@[p] == weights_b[p]);
                    } else if p > at {
                        assert(weights@[p] == weights_b[p - 1]);
                    }
                }
            }
        } else {
            proof {
                assert forall|x: int| 0 <= x < ws.len() implies (ok[x] && x < j + 1
                    <==> #[trigger] order@.contains(x as usize)) by {
                }
            }
        }
        j += 1;
    }
    proof {
        assert forall|p: int, q: int|
            #![trigger order@[p], order@[q]]
            0 <= p < q < order@.len() implies g.weight(i as int, order@[p] as int) < g.weight(
            i as int,
            order@[q] as int,
        ) || (g.weight(i as int, order@[p] as int) == g.weight(i as int, order@[q] as int)
            && order@[p] < order@[q]) by {
            assert(ws[order@[p] as int] == g.weight(i as int, order@[p] as int));
            assert(ws[order@[q] as int] == g.weight(i as int, order@[q] as int));
        }
        assert forall|x: int| 0 <= x < g.members.len() implies (x != i
            <==> #[trigger] order@.contains(x as usize)) by {
            assert(ok[x] == (x != i));
            assert(x < n);
        }
    }
    order
}

/// What joining two nodes finds: a cheapest way if the search has one of two
/// cells or more, else the straight line.
pub open spec fn way_found(f: RoadView, a: GraphNode, b: GraphNode, path: Seq<i32>) -> bool {
    exists|searched: Seq<i32>|
        #[trigger] search_result(f, a.cell as int, b.cell as int, searched) && (
        if searched.len() >= 2 {
            path == searched
        } else {
            line_result(
                f.size,
                f.cells,
                a.ax as int,
                a.az as int,
                b.ax as int,
                b.az as int,
                path,
            )
        })
}

/// A road that was tried between two nodes, and the way found for it; `tried` is
/// false where the pair was passed over.
pub ghost struct Attempt {
    pub a: GraphNode,
    pub b: GraphNode,
    pub class: RoadClass,
    pub tried: bool,
    pub path: Seq<i32>,
}

impl Attempt {
    /// The attempt laid a road.
    pub open spec fn laid(self) -> bool {
        self.tried && self.path.len() >= 2
    }

    pub open spec fn pair(self) -> (i32, i32) {
        ordered_pair(self.a.id, self.b.id)
    }
}

/// What all attempts share.
pub ghost struct RoadPlan {
    pub world_seed: i32,
    pub f: RoadView,
    pub towns: Seq<bool>,
}

/// A graph and the number of the next road.
pub ghost struct RoadState {
    pub graph: RoadsView,
    pub serial: int,
}

impl RoadPlan {
    pub open spec fn stamp(self, at: Attempt, serial: int) -> RoadStamp {
        RoadStamp {
            world_seed: self.world_seed,
            size: self.f.size,
            cells: self.f.cells,
            path: at.path,
            class: at.class,
            node_a: at.a.id,
            node_b: at.b.id,
            serial,
            towns: self.towns,
        }
    }

    /// The state after an attempt: a laid road is stamped, counted, and listed
    /// where it is of the backbone.
    pub open spec fn after(self, st: RoadState, at: Attempt) -> RoadState {
        if at.laid() {
            let g = self.stamp(at, st.serial).stamped(st.graph, at.path.len());
            RoadState {
                graph: RoadsView {
                    primary_edges: if at.class == RoadClass::Primary {
                        g.primary_edges.push((at.a.id, at.b.id))
                    } else {
                        g.primary_edges
                    },
                    ..g
                },
                serial: st.serial + 1,
            }
        } else {
            st
        }
    }

    pub open spec fn after_all(self, st: RoadState, attempts: Seq<Attempt>) -> RoadState
        decreases attempts.len(),
    {
        if attempts.len() == 0 {
            st
        } else {
            self.after(self.after_all(st, attempts.drop_last()), attempts.last())
        }
    }
}

/// One of the attempts laid a road between the pair.
pub open spec fn pair_laid(attempts: Seq<Attempt>, pair: (i32, i32)) -> bool {
    exists|i: int|
        0 <= i < attempts.len() && (#[trigger] attempts[i]).laid() && attempts[i].pair() == pair
}

/// How many of the attempts laid a road.
pub open spec fn laid_count(attempts: Seq<Attempt>) -> int
    decreases attempts.len(),
{
    if attempts.len() == 0 {
        0
    } else {
        laid_count(attempts.drop_last()) + if attempts.last().laid() {
            1int
        } else {
            0int
        }
    }
}

/// The backbone attempts of a group: its edges in order, each with a way found.
pub open spec fn backbone_tried(
    plan: RoadPlan,
    g: Group,
    edges: Seq<(usize, usize)>,
    attempts: Seq<Attempt>,
) -> bool {
    &&& g.is_backbone(edges)
    &&& attempts.len() == edges.len()
    &&& forall|t: int|
        0 <= t < attempts.len() ==> {
            &&& (#[trigger] attempts[t]).a == g.node(edges[t].0 as int)
            &&& attempts[t].b == g.node(edges[t].1 as int)
            &&& attempts[t].class == RoadClass::Primary
            &&& attempts[t].tried
            &&& way_found(plan.f, attempts[t].a, attempts[t].b, attempts[t].path)
        }
}

/// The `p`-th spur attempt from member `i`, after `before` and the earlier spurs
/// from it: towards the `p`-th nearest, passed over where the pair is joined.
pub open spec fn spur_tried(
    plan: RoadPlan,
    g: Group,
    i: int,
    order: Seq<usize>,
    before: Seq<Attempt>,
    spurs: Seq<Attempt>,
    p: int,
) -> bool {
    let at = spurs[p];
    &&& at.a == g.node(i)
    &&& at.b == g.node(order[p] as int)
    &&& at.class == RoadClass::Secondary
    &&& laid_count(spurs.take(p)) < 2
    &&& at.tried == !pair_laid(before + spurs.take(p), at.pair())
    &&& at.tried ==> way_found(plan.f, at.a, at.b, at.path)
    &&& !at.tried ==> at.path.len() == 0
}

/// The spur attempts from member `i`: none from a settlement, else towards the
/// nearest first until two were laid or none is left.
pub open spec fn spurs_tried(
    plan: RoadPlan,
    g: Group,
    i: int,
    before: Seq<Attempt>,
    spurs: Seq<Attempt>,
) -> bool {
    if g.node(i).kind == NodeKind::Settlement {
        spurs.len() == 0
    } else {
        exists|order: Seq<usize>|
            {
                &&& #[trigger] g.is_by_nearness(i, order)
                &&& spurs.len() <= order.len()
                &&& spurs.len() == order.len() || laid_count(spurs) >= 2
                &&& forall|p: int|
                    0 <= p < spurs.len() ==> #[trigger] spur_tried(
                        plan,
                        g,
                        i,
                        order,
                        before,
                        spurs,
                        p,
                    )
            }
    }
}

/// All spur attempts of the first `n` members, one after the other.
pub open spec fn spurs_flat(spurs: Seq<Seq<Attempt>>, n: nat) -> Seq<Attempt>
    decreases n,
{
    if n == 0 {
        Seq::empty()
    } else {
        spurs_flat(spurs, (n - 1) as nat) + spurs[n - 1]
    }
}

/// The attempts of one group: its backbone, then the spurs of each member.
pub open spec fn group_tried(plan: RoadPlan, g: Group, attempts: Seq<Attempt>) -> bool {
    exists|edges: Seq<(usize, usize)>, trunk: Seq<Attempt>, spurs: Seq<Seq<Attempt>>|
        {
            &&& #[trigger] backbone_tried(plan, g, edges, trunk)
            &&& spurs.len() == g.members.len()
            &&& forall|i: int|
                0 <= i < spurs.len() ==> spurs_tried(
                    plan,
                    g,
                    i,
                    trunk + spurs_flat(spurs, i as nat),
                    #[trigger] spurs[i],
                )
            &&& attempts == trunk + #[trigger] spurs_flat(spurs, spurs.len())
        }
}

/// A way over neighbouring cells is one over touching cells.
proof fn lemma_route_touches(f: RoadView, start: int, goal: int, path: Seq<i32>)
    requires
        f.well_formed(),
        f.is_route(start, goal, path_cells(path)),
    ensures
        king_path(f.size, path),
{
    let p = path_cells(path);
    assert forall|i: int| 0 <= i < path.len() implies is_cell(f.size, #[trigger] path[i] as int) by {
        assert(p[i] == path[i]);
    }
    assert forall|i: int| 0 < i < path.len() implies king_step(
        f.size,
        path[i - 1] as int,
        #[trigger] path[i] as int,
    ) by {
        assert(p[i] == path[i] && p[i - 1] == path[i - 1]);
        assert(adjacent(f.size, p[i - 1], p[i]));
        lemma_cell_coords(f.size, p[i - 1]);
        let k = choose|k: int| 0 <= k < 4 && #[trigger] step(f.size, p[i - 1], k) == Some(p[i]);
        let ax = cell_x(f.size, p[i - 1]);
        let az = cell_z(f.size, p[i - 1]);
        lemma_step_coords(f.size, ax, az, k);
        let nx = ax + (if k == 0 { 1int } else if k == 2 { -1 } else { 0 });
        let nz = az + (if k == 1 { 1int } else if k == 3 { -1 } else { 0 });
        lemma_king_step(f.size, ax, az, nx, nz);
    }
}

/// Finds a way between two nodes and stamps a road along it. Says whether there
/// is one.
pub fn route_and_stamp_road(
    world_seed: i32,
    f: &RoadField<'_>,
    a: &GraphNode,
    b: &GraphNode,
    road_class: RoadClass,
    serial: i32,
    towns: &Vec<bool>,
    graph: &mut RoadGraph,
) -> (r: bool)
    requires
        f@.well_formed(),
        f.size <= 4096,
        towns@.len() == f.size * f.size,
        old(graph)@.well_formed(),
    ensures
        final(graph)@.well_formed(),
        exists|path: Seq<i32>|
            #[trigger] way_found(f@, *a, *b, path) && r == (path.len() >= 2) && final(graph)@ == (
            if r {
                (RoadStamp {
                    world_seed,
                    size: f.size as int,
                    cells: f.cells@,
                    path,
                    class: road_class,
                    node_a: a.id,
                    node_b: b.id,
                    serial: serial as int,
                    towns: towns@,
                }).stamped(old(graph)@, path.len())
            } else {
                old(graph)@
            }),
{
    let mut path: Vec<i32> = road_astar(
        f.size,
        f.cells,
        f.elev_code,
        f.river_adjacent,
        f.river_channel,
        a.cell,
        b.cell,
    );
    let ghost searched = path@;
    assert(search_result(f@, a.cell as int, b.cell as int, searched));
    if path.len() < 2 {
        path = road_bresenham(f.size, f.cells, a.ax, a.az, b.ax, b.az);
    } else {
        proof {
            lemma_route_touches(f@, a.cell as int, b.cell as int, searched);
        }
    }
    assert(way_found(f@, *a, *b, path@));
    if path.len() < 2 {
        return false;
    }
    stamp_road_path(
        world_seed,
        f.size,
        f.cells,
        &path,
        road_class,
        a.id,
        b.id,
        serial,
        towns,
        graph,
    );
    true
}


proof fn lemma_after_push(plan: RoadPlan, st: RoadState, attempts: Seq<Attempt>, at: Attempt)
    ensures
        plan.after_all(st, attempts.push(at)) == plan.after(plan.after_all(st, attempts), at),
        laid_count(attempts.push(at)) == laid_count(attempts) + if at.laid() {
            1int
        } else {
            0int
        },
{
    assert(attempts.push(at).drop_last() =~= attempts);
}

proof fn lemma_after_concat(
    plan: RoadPlan,
    st: RoadState,
    first: Seq<Attempt>,
    second: Seq<Attempt>,
)
    ensures
        plan.after_all(st, first + second) == plan.after_all(plan.after_all(st, first), second),
    decreases second.len(),
{
    if second.len() == 0 {
        assert(first + second =~= first);
    } else {
        lemma_after_concat(plan, st, first, second.drop_last());
        assert((first + second).drop_last() =~= first + second.drop_last());
    }
}

proof fn lemma_flat_push(spurs: Seq<Seq<Attempt>>, last: Seq<Attempt>, n: nat)
    requires
        n <= spurs.len(),
    ensures
        spurs_flat(spurs.push(last), n) == spurs_flat(spurs, n),
    decreases n,
{
    if n > 0 {
        lemma_flat_push(spurs, last, (n - 1) as nat);
    }
}

proof fn lemma_pair_push(attempts: Seq<Attempt>, at: Attempt, pair: (i32, i32))
    ensures
        pair_laid(attempts.push(at), pair) <==> pair_laid(attempts, pair) || (at.laid() && at.pair()
            == pair),
{
    let now = attempts.push(at);
    if pair_laid(attempts, pair) {
        let i = choose|i: int|
            0 <= i < attempts.len() && (#[trigger] attempts[i]).laid() && attempts[i].pair() == pair;
        assert(now[i].laid() && now[i].pair() == pair);
    }
    if at.laid() && at.pair() == pair {
        assert(now[attempts.len() as int] == at);
    }
    if pair_laid(now, pair) {
        let i = choose|i: int|
            0 <= i < now.len() && (#[trigger] now[i]).laid() && now[i].pair() == pair;
        if i < attempts.len() {
            assert(attempts[i] == now[i]);
        }
    }
}

/// Whether a pair is in a list.
fn holds_pair(list: &Vec<(i32, i32)>, pair: (i32, i32)) -> (r: bool)
    ensures
        r == list@.contains(pair),
{
    let mut i: usize = 0;
    while i < list.len()
        invariant
            i <= list@.len(),
            forall|j: int| 0 <= j < i ==> #[trigger] list@[j] != pair,
        decreases list@.len() - i,
    {
        let p: (i32, i32) = list[i];
        if p.0 == pair.0 && p.1 == pair.1 {
            assert(list@[i as int] == pair);
            return true;
        }
        i += 1;
    }
    false
}

/// The pairs a list holds are those that the attempts joined.
spec fn pairs_kept(linked: Seq<(i32, i32)>, attempts: Seq<Attempt>) -> bool {
    forall|pair: (i32, i32)| #[trigger] linked.contains(pair) <==> pair_laid(attempts, pair)
}

proof fn lemma_pairs_push(linked: Seq<(i32, i32)>, attempts: Seq<Attempt>, at: Attempt)
    requires
        pairs_kept(linked, attempts),
    ensures
        at.laid() ==> pairs_kept(linked.push(at.pair()), attempts.push(at)),
        !at.laid() ==> pairs_kept(linked, attempts.push(at)),
{
    let now = linked.push(at.pair());
    assert forall|pair: (i32, i32)| at.laid() implies (#[trigger] now.contains(pair)
        <==> pair_laid(attempts.push(at), pair)) by {
        lemma_pair_push(attempts, at, pair);
        assert(linked.contains(pair) <==> pair_laid(attempts, pair));
        if linked.contains(pair) {
            let k = choose|k: int| 0 <= k < linked.len() && linked[k] == pair;
            assert(now[k] == pair);
        }
        if pair == at.pair() {
            assert(now[linked.len() as int] == pair);
        }
        if now.contains(pair) && pair != at.pair() {
            let k = choose|k: int| 0 <= k < now.len() && now[k] == pair;
            assert(linked[k] == pair);
        }
    }
    assert forall|pair: (i32, i32)| !at.laid() implies (#[trigger] linked.contains(pair)
        <==> pair_laid(attempts.push(at), pair)) by {
        lemma_pair_push(attempts, at, pair);
    }
}

/// Lays the spurs of member `i`. Returns the next road number.
fn lay_spurs(
    world_seed: i32,
    f: &RoadField<'_>,
    nodes: &[GraphNode],
    members: &Vec<usize>,
    i: usize,
    towns: &Vec<bool>,
    serial: i32,
    linked: &mut Vec<(i32, i32)>,
    graph: &mut RoadGraph,
    Ghost(before): Ghost<Seq<Attempt>>,
) -> (r: (i32, Ghost<Seq<Attempt>>))
    requires
        f@.well_formed(),
        f.size <= 4096,
        towns@.len() == f.size * f.size,
        group_of(f.size, f.cells, nodes, members).well_formed(),
        i < members@.len(),
        0 <= serial <= i32::MAX - 2,
        old(graph)@.well_formed(),
        pairs_kept(old(linked)@, before),
    ensures
        final(graph)@.well_formed(),
        pairs_kept(final(linked)@, before + r.1@),
        serial <= r.0 <= serial + 2,
        spurs_tried(
            (RoadPlan { world_seed, f: f@, towns: towns@ }),
            group_of(f.size, f.cells, nodes, members),
            i as int,
            before,
            r.1@,
        ),
        (RoadPlan { world_seed, f: f@, towns: towns@ }).after_all(
            (RoadState { graph: old(graph)@, serial: serial as int }),
            r.1@,
        ) == (RoadState { graph: final(graph)@, serial: r.0 as int }),
{
    let ghost g = group_of(f.size, f.cells, nodes, members);
    let ghost plan = RoadPlan { world_seed, f: f@, towns: towns@ };
    let ghost st0 = RoadState { graph: graph@, serial: serial as int };
    let ghost mut spurs: Seq<Attempt> = Seq::empty();
    assert(g.members[i as int] < g.nodes.len());
    let ni: GraphNode = nodes[members[i]];
    assert(before + spurs =~= before);
    if ni.kind == NodeKind::Settlement {
        return (serial, Ghost(spurs));
    }
    let order: Vec<usize> = members_by_nearness(f.size, f.cells, nodes, members, i);
    let mut next: i32 = serial;
    let mut added: i32 = 0;
    let mut p: usize = 0;
    while p < order.len() && added < 2
        invariant
            p <= order@.len(),
            0 <= added <= 2,
            next == serial + added,
            0 <= serial <= i32::MAX - 2,
            g == group_of(f.size, f.cells, nodes, members),
            g.well_formed(),
            g.is_by_nearness(i as int, order@),
            i < members@.len(),
            ni == g.node(i as int),
            f@.well_formed(),
            f.size <= 4096,
            towns@.len() == f.size * f.size,
            plan == (RoadPlan { world_seed, f: f@, towns: towns@ }),
            graph@.well_formed(),
            spurs.len() == p,
            added == laid_count(spurs),
            pairs_kept(linked@, before + spurs),
            plan.after_all(st0, spurs) == (RoadState { graph: graph@, serial: next as int }),
            forall|q: int|
                0 <= q < spurs.len() ==> #[trigger] spur_tried(
                    plan,
                    g,
                    i as int,
                    order@,
                    before,
                    spurs,
                    q,
                ),
        decreases order@.len() - p,
    {
        let j: usize = order[p];
        assert(g.members[j as int] < g.nodes.len());
        let nj: GraphNode = nodes[members[j]];
        let key: (i32, i32) = pair_key(ni.id, nj.id);
        let ghost mut at = Attempt {
            a: ni,
            b: nj,
            class: RoadClass::Secondary,
            tried: false,
            path: Seq::empty(),
        };
        let ghost linked_b = linked@;
        let ghost graph_b = graph@;
        if !holds_pair(linked, key) {
            let laid: bool = route_and_stamp_road(
                world_seed,
                f,
                &ni,
                &nj,
                RoadClass::Secondary,
                next,
                towns,
                graph,
            );
            proof {
                let path = choose|path: Seq<i32>|
                    #[trigger] way_found(f@, ni, nj, path) && laid == (path.len() >= 2) && graph@
                        == (if laid {
                        (RoadStamp {
                            world_seed,
                            size: f.size as int,
                            cells: f.cells@,
                            path,
                            class: RoadClass::Secondary,
                            node_a: ni.id,
                            node_b: nj.id,
                            serial: next as int,
                            towns: towns@,
                        }).stamped(graph_b, path.len())
                    } else {
                        graph_b
                    });
                at = Attempt { a: ni, b: nj, class: RoadClass::Secondary, tried: true, path };
            }
            if laid {
                linked.push(key);
                next += 1;
                added += 1;
            }
        }
        proof {
            let earlier = spurs;
            lemma_after_push(plan, st0, earlier, at);
            lemma_pairs_push(linked_b, before + earlier, at);
            assert((before + earlier).push(at) =~= before + earlier.push(at));
            spurs = earlier.push(at);
            assert(linked_b.contains(key) <==> pair_laid(before + earlier, key));
            assert forall|q: int| 0 <= q < spurs.len() implies #[trigger] spur_tried(
                plan,
                g,
                i as int,
                order@,
                before,
                spurs,
                q,
            ) by {
                if q < earlier.len() {
                    assert(spur_tried(plan, g, i as int, order@, before, earlier, q));
                    assert(spurs.take(q) =~= earlier.take(q));
                    assert(spurs[q] == earlier[q]);
                } else {
                    assert(spurs.take(q) =~= earlier);
                }
            }
        }
        p += 1;
    }
    (next, Ghost(spurs))
}

/// Lays the backbone and the spurs of one group. Returns the next road number.
#[verifier::rlimit(60)]
pub fn roads_of_group(
    world_seed: i32,
    f: &RoadField<'_>,
    nodes: &[GraphNode],
    members: &Vec<usize>,
    towns: &Vec<bool>,
    serial: i32,
    graph: &mut RoadGraph,
) -> (r: i32)
    requires
        f@.well_formed(),
        f.size <= 4096,
        towns@.len() == f.size * f.size,
        group_of(f.size, f.cells, nodes, members).well_formed(),
        0 < members@.len(),
        0 <= serial,
        serial + 3 * members@.len() <= i32::MAX,
        old(graph)@.well_formed(),
    ensures
        final(graph)@.well_formed(),
        serial <= r <= serial + 3 * members@.len(),
        exists|attempts: Seq<Attempt>|
            #[trigger] group_tried(
                (RoadPlan { world_seed, f: f@, towns: towns@ }),
                group_of(f.size, f.cells, nodes, members),
                attempts,
            ) && (RoadPlan { world_seed, f: f@, towns: towns@ }).after_all(
                (RoadState { graph: old(graph)@, serial: serial as int }),
                attempts,
            ) == (RoadState { graph: final(graph)@, serial: r as int }),
{
    let ghost g = group_of(f.size, f.cells, nodes, members);
    let ghost plan = RoadPlan { world_seed, f: f@, towns: towns@ };
    let ghost st0 = RoadState { graph: graph@, serial: serial as int };
    let edges: Vec<(usize, usize)> = backbone_edges(f.size, f.cells, nodes, members);
    let mut linked: Vec<(i32, i32)> = Vec::new();
    let mut next: i32 = serial;
    let ghost mut trunk: Seq<Attempt> = Seq::empty();
    proof {
        assert forall|pair: (i32, i32)| #[trigger] linked@.contains(pair) implies pair_laid(
            trunk,
            pair,
        ) by {
        }
    }
    let n: usize = members.len();
    let mut t: usize = 0;
    while t < edges.len()
        invariant
            t <= edges@.len(),
            edges@.len() == n - 1,
            n == members@.len(),
            serial + 3 * n <= i32::MAX,
            0 <= serial <= next <= serial + t,
            g == group_of(f.size, f.cells, nodes, members),
            g.well_formed(),
            g.is_backbone(edges@),
            f@.well_formed(),
            f.size <= 4096,
            towns@.len() == f.size * f.size,
            plan == (RoadPlan { world_seed, f: f@, towns: towns@ }),
            graph@.well_formed(),
            trunk.len() == t,
            pairs_kept(linked@, trunk),
            plan.after_all(st0, trunk) == (RoadState { graph: graph@, serial: next as int }),
            forall|u: int|
                0 <= u < t ==> {
                    &&& (#[trigger] trunk[u]).a == g.node(edges@[u].0 as int)
                    &&& trunk[u].b == g.node(edges@[u].1 as int)
                    &&& trunk[u].class == RoadClass::Primary
                    &&& trunk[u].tried
                    &&& way_found(plan.f, trunk[u].a, trunk[u].b, trunk[u].path)
                },
        decreases edges@.len() - t,
    {
        let (i, j) = edges[t];
        proof {
            let root = choose|root: int| #[trigger]
                g.is_densest(root) && forall|u: int|
                    0 <= u < edges@.len() ==> #[trigger] g.cheapest_join(root, edges@, u);
            assert(g.cheapest_join(root, edges@, t as int));
            assert(g.members[i as int] < g.nodes.len());
            assert(g.members[j as int] < g.nodes.len());
        }
        let a: GraphNode = nodes[members[i]];
        let b: GraphNode = nodes[members[j]];
        let ghost graph_b = graph@;
        let ghost linked_b = linked@;
        let laid: bool = route_and_stamp_road(
            world_seed,
            f,
            &a,
            &b,
            RoadClass::Primary,
            next,
            towns,
            graph,
        );
        let ghost path = choose|path: Seq<i32>|
            #[trigger] way_found(f@, a, b, path) && laid == (path.len() >= 2) && graph@ == (if laid {
                (RoadStamp {
                    world_seed,
                    size: f.size as int,
                    cells: f.cells@,
                    path,
                    class: RoadClass::Primary,
                    node_a: a.id,
                    node_b: b.id,
                    serial: next as int,
                    towns: towns@,
                }).stamped(graph_b, path.len())
            } else {
                graph_b
            });
        let ghost stamped = graph@;
        if laid {
            graph.primary_edges.push((a.id, b.id));
            linked.push(pair_key(a.id, b.id));
            next += 1;
        }
        proof {
            let at = Attempt { a, b, class: RoadClass::Primary, tried: true, path };
            lemma_after_push(plan, st0, trunk, at);
            lemma_pairs_push(linked_b, trunk, at);
            trunk = trunk.push(at);
        }
        t += 1;
    }
    assert(backbone_tried(plan, g, edges@, trunk));
    let ghost mut spurs: Seq<Seq<Attempt>> = Seq::empty();
    assert(trunk + spurs_flat(spurs, 0) =~= trunk);
    let mut i: usize = 0;
    while i < n
        invariant
            i <= n,
            n == members@.len(),
            n > 0,
            serial + 3 * n <= i32::MAX,
            0 <= serial <= next <= serial + (n - 1) + 2 * i,
            g == group_of(f.size, f.cells, nodes, members),
            g.well_formed(),
            f@.well_formed(),
            f.size <= 4096,
            towns@.len() == f.size * f.size,
            plan == (RoadPlan { world_seed, f: f@, towns: towns@ }),
            graph@.well_formed(),
            spurs.len() == i,
            pairs_kept(linked@, trunk + spurs_flat(spurs, i as nat)),
            plan.after_all(st0, trunk + spurs_flat(spurs, i as nat)) == (RoadState {
                graph: graph@,
                serial: next as int,
            }),
            forall|k: int|
                0 <= k < spurs.len() ==> spurs_tried(
                    plan,
                    g,
                    k,
                    trunk + spurs_flat(spurs, k as nat),
                    #[trigger] spurs[k],
                ),
        decreases n - i,
    {
        let ghost so_far = trunk + spurs_flat(spurs, i as nat);
        let (after, more) = lay_spurs(
            world_seed,
            f,
            nodes,
            members,
            i,
            towns,
            next,
            &mut linked,
            graph,
            Ghost(so_far),
        );
        next = after;
        proof {
            let last = more@;
            let earlier = spurs;
            spurs = earlier.push(last);
            lemma_flat_push(earlier, last, i as nat);
            lemma_after_concat(plan, st0, so_far, last);
            assert(spurs_flat(spurs, (i + 1) as nat) == spurs_flat(earlier, i as nat) + last);
            assert(trunk + spurs_flat(spurs, (i + 1) as nat) =~= so_far + last);
            assert forall|k: int| 0 <= k < spurs.len() implies spurs_tried(
                plan,
                g,
                k,
                trunk + spurs_flat(spurs, k as nat),
                #[trigger] spurs[k],
            ) by {
                lemma_flat_push(earlier, last, k as nat);
                if k < earlier.len() {
                    assert(spurs[k] == earlier[k]);
                }
            }
        }
        i += 1;
    }
    proof {
        let attempts = trunk + spurs_flat(spurs, spurs.len());
        assert(group_tried(plan, g, attempts));
    }
    next
}


/// The places of the nodes of a landmass, by node id and then by place.
pub open spec fn is_mass_members(nodes: Seq<GraphNode>, mass: i32, members: Seq<usize>) -> bool {
    &&& members.no_duplicates()
    &&& forall|p: int| 0 <= p < members.len() ==> (#[trigger] members[p]) < nodes.len()
    &&& forall|x: int|
        0 <= x < nodes.len() ==> (nodes[x].landmass == mass <==> #[trigger] members.contains(
            x as usize,
        ))
    &&& forall|p: int, q: int|
        #![trigger members[p], members[q]]
        0 <= p < q < members.len() ==> nodes[members[p] as int].id < nodes[members[q] as int].id
            || (nodes[members[p] as int].id == nodes[members[q] as int].id && members[p]
            < members[q])
}

fn mass_members(nodes: &[GraphNode], mass: i32) -> (members: Vec<usize>)
    ensures
        is_mass_members(nodes@, mass, members@),
{
    let ghost ws = Seq::new(nodes@.len(), |x: int| nodes@[x].id as int);
    let ghost ok = Seq::new(nodes@.len(), |x: int| nodes@[x].landmass == mass);
    let mut members: Vec<usize> = Vec::new();
    let mut j: usize = 0;
    while j < nodes.len()
        invariant
            j <= nodes@.len(),
            ws == Seq::new(nodes@.len(), |x: int| nodes@[x].id as int),
            ok == Seq::new(nodes@.len(), |x: int| nodes@[x].landmass == mass),
            listed_by_weight(ws, ok, members@, j as int),
        decreases nodes@.len() - j,
    {
        if nodes[j].landmass == mass {
            let id: i32 = nodes[j].id;
            let mut at: usize = members.len();
            while at > 0 && nodes[members[at - 1]].id > id
                invariant
                    at <= members@.len(),
                    forall|p: int| 0 <= p < members@.len() ==> (#[trigger] members@[p]) < nodes@.len(),
                    forall|p: int|
                        at <= p < members@.len() ==> nodes@[#[trigger] members@[p] as int].id > id,
                decreases at,
            {
                at -= 1;
            }
            proof {
                assert(members@.len() > 0 ==> members@[0] < j);
                lemma_insert_by_weight(ws, ok, members@, j, at as int);
            }
            members.insert(at, j);
        } else {
            proof {
                assert forall|x: int| 0 <= x < ws.len() implies (ok[x] && x < j + 1
                    <==> #[trigger] members@.contains(x as usize)) by {
                }
            }
        }
        j += 1;
    }
    proof {
        assert forall|p: int, q: int|
            #![trigger members@[p], members@[q]]
            0 <= p < q < members@.len() implies nodes@[members@[p] as int].id
            < nodes@[members@[q] as int].id || (nodes@[members@[p] as int].id
            == nodes@[members@[q] as int].id && members@[p] < members@[q]) by {
            assert(ws[members@[p] as int] == nodes@[members@[p] as int].id);
            assert(ws[members@[q] as int] == nodes@[members@[q] as int].id);
        }
        assert forall|x: int| 0 <= x < nodes@.len() implies (nodes@[x].landmass == mass
            <==> #[trigger] members@.contains(x as usize)) by {
            assert(ok[x] == (nodes@[x].landmass == mass));
        }
    }
    members
}


/// Node `x` is the first of the `m`-th landmass, after nodes of earlier ones.
pub open spec fn first_of_mass(nodes: Seq<GraphNode>, masses: Seq<i32>, m: int, x: int) -> bool {
    &&& nodes[x].landmass == masses[m]
    &&& forall|y: int| 0 <= y < x ==> masses.take(m).contains((#[trigger] nodes[y]).landmass)
}

/// The `m`-th landmass has a first node below `upto`.
pub open spec fn has_first(nodes: Seq<GraphNode>, masses: Seq<i32>, m: int, upto: int) -> bool {
    exists|x: int| 0 <= x < upto && #[trigger] first_of_mass(nodes, masses, m, x)
}

/// The landmasses of the nodes, in the order in which they first appear.
pub open spec fn is_mass_list(nodes: Seq<GraphNode>, masses: Seq<i32>) -> bool {
    &&& masses.no_duplicates()
    &&& forall|x: int| 0 <= x < nodes.len() ==> masses.contains((#[trigger] nodes[x]).landmass)
    &&& forall|m: int|
        0 <= m < masses.len() ==> #[trigger] has_first(nodes, masses, m, nodes.len() as int)
}

fn mass_list(nodes: &[GraphNode]) -> (masses: Vec<i32>)
    ensures
        is_mass_list(nodes@, masses@),
{
    let mut masses: Vec<i32> = Vec::new();
    let mut x: usize = 0;
    while x < nodes.len()
        invariant
            x <= nodes@.len(),
            masses@.no_duplicates(),
            forall|y: int| 0 <= y < x ==> masses@.contains((#[trigger] nodes@[y]).landmass),
            forall|m: int|
                0 <= m < masses@.len() ==> #[trigger] has_first(nodes@, masses@, m, x as int),
        decreases nodes@.len() - x,
    {
        let mass: i32 = nodes[x].landmass;
        let mut known: bool = false;
        let mut m: usize = 0;
        while m < masses.len() && !known
            invariant
                m <= masses@.len(),
                known ==> masses@.contains(mass),
                !known ==> forall|k: int| 0 <= k < m ==> #[trigger] masses@[k] != mass,
            decreases masses@.len() - m, !known as int,
        {
            if masses[m] == mass {
                assert(masses@[m as int] == mass);
                known = true;
            } else {
                m += 1;
            }
        }
        let ghost before = masses@;
        if !known {
            masses.push(mass);
            assert(masses@[before.len() as int] == mass);
        }
        proof {
            assert forall|y: int| 0 <= y < x + 1 implies masses@.contains(
                (#[trigger] nodes@[y]).landmass,
            ) by {
                if y < x {
                    let k = choose|k: int| 0 <= k < before.len() && before[k] == nodes@[y].landmass;
                    assert(masses@[k] == nodes@[y].landmass);
                }
            }
            assert forall|m: int| 0 <= m < masses@.len() implies #[trigger] has_first(
                nodes@,
                masses@,
                m,
                x + 1,
            ) by {
                if m < before.len() {
                    assert(masses@.take(m) =~= before.take(m));
                    assert(before[m] == masses@[m]);
                    assert(has_first(nodes@, before, m, x as int));
                    let y = choose|y: int|
                        0 <= y < x && #[trigger] first_of_mass(nodes@, before, m, y);
                    assert(first_of_mass(nodes@, masses@, m, y));
                } else {
                    assert(masses@.take(m) =~= before);
                    assert(first_of_mass(nodes@, masses@, m, x as int));
                }
            }
        }
        x += 1;
    }
    masses
}

/// The attempts of a landmass: none where it has fewer than two nodes.
pub open spec fn mass_tried(
    plan: RoadPlan,
    nodes: Seq<GraphNode>,
    mass: i32,
    attempts: Seq<Attempt>,
) -> bool {
    exists|members: Seq<usize>|
        #[trigger] is_mass_members(nodes, mass, members) && if members.len() < 2 {
            attempts.len() == 0
        } else {
            group_tried(
                plan,
                Group { size: plan.f.size, cells: plan.f.cells, nodes, members },
                attempts,
            )
        }
}

/// The settlements' cells.
pub open spec fn town_mask(size: int, nodes: Seq<GraphNode>) -> Seq<bool> {
    Seq::new(
        (size * size) as nat,
        |c: int|
            exists|i: int|
                0 <= i < nodes.len() && (#[trigger] nodes[i]).kind == NodeKind::Settlement
                    && nodes[i].cell == c,
    )
}

/// The land as roads see it, its rivers taken from the cells that hold river
/// links.
pub open spec fn road_land(
    size: int,
    cells: Seq<i32>,
    elev_code: Seq<u8>,
    rivers: Set<i32>,
) -> RoadView {
    RoadView {
        size,
        cells,
        elev_code,
        river_adjacent: Seq::new(
            (size * size) as nat,
            |c: int|
                if beside_river(size, cells, rivers, c) {
                    1u8
                } else {
                    0u8
                },
        ),
        river_channel: Seq::new(
            (size * size) as nat,
            |c: int|
                if rivers.contains(c as i32) {
                    1u8
                } else {
                    0u8
                },
        ),
    }
}

/// What building roads does: the attempts of each landmass in turn.
pub open spec fn roads_built(
    plan: RoadPlan,
    nodes: Seq<GraphNode>,
    before: RoadsView,
    after: RoadsView,
) -> bool {
    exists|masses: Seq<i32>, tried: Seq<Seq<Attempt>>|
        {
            &&& #[trigger] is_mass_list(nodes, masses)
            &&& tried.len() == masses.len()
            &&& forall|m: int|
                0 <= m < masses.len() ==> mass_tried(plan, nodes, masses[m], #[trigger] tried[m])
            &&& plan.after_all(
                RoadState { graph: before, serial: 0 },
                #[trigger] spurs_flat(tried, tried.len()),
            ).graph == after
        }
}

fn towns_of(size: usize, nodes: &[GraphNode]) -> (r: Vec<bool>)
    requires
        side_ok(size as int),
        forall|i: int| 0 <= i < nodes@.len() ==> node_placed(size as int, #[trigger] nodes@[i]),
    ensures
        r@ == town_mask(size as int, nodes@),
{
    let ghost n = size as int;
    proof {
        lemma_side(n);
    }
    let count: usize = size * size;
    let mut r: Vec<bool> = vec![false; count];
    let mut i: usize = 0;
    while i < nodes.len()
        invariant
            i <= nodes@.len(),
            n == size,
            r@.len() == n * n,
            forall|j: int| 0 <= j < nodes@.len() ==> node_placed(n, #[trigger] nodes@[j]),
            forall|c: int|
                0 <= c < n * n ==> (#[trigger] r@[c] <==> exists|j: int|
                    0 <= j < i && (#[trigger] nodes@[j]).kind == NodeKind::Settlement
                        && nodes@[j].cell == c),
        decreases nodes@.len() - i,
    {
        let ghost before = r@;
        let node: GraphNode = nodes[i];
        proof {
            assert(node_placed(n, nodes@[i as int]));
            lemma_coords_of_number(n, node.ax as int, node.az as int);
        }
        if node.kind == NodeKind::Settlement {
            r.set(node.cell as usize, true);
        }
        proof {
            assert forall|c: int| 0 <= c < n * n implies (#[trigger] r@[c] <==> exists|j: int|
                0 <= j < i + 1 && (#[trigger] nodes@[j]).kind == NodeKind::Settlement
                    && nodes@[j].cell == c) by {
                assert(before[c] <==> exists|j: int|
                    0 <= j < i && (#[trigger] nodes@[j]).kind == NodeKind::Settlement
                        && nodes@[j].cell == c);
                if nodes@[i as int].kind == NodeKind::Settlement && nodes@[i as int].cell == c {
                    assert(r@[c]);
                }
                if exists|j: int|
                    0 <= j < i + 1 && (#[trigger] nodes@[j]).kind == NodeKind::Settlement
                        && nodes@[j].cell == c {
                    let j = choose|j: int|
                        0 <= j < i + 1 && (#[trigger] nodes@[j]).kind == NodeKind::Settlement
                            && nodes@[j].cell == c;
                    assert(j < i || nodes@[i as int].cell == c);
                }
            }
        }
        i += 1;
    }
    assert(r@ =~= town_mask(n, nodes@));
    r
}

fn channel_mask_of(size: usize, river_links: &FxHashMap<i32, Vec<Link>>) -> (r: Vec<u8>)
    requires
        side_ok(size as int),
        forall|key: i32| #[trigger] river_links@.contains_key(key) ==> is_cell(size as int, key as int),
    ensures
        r@.len() == size * size,
        forall|c: int|
            is_cell(size as int, c) ==> #[trigger] r@[c] == (if river_links@.dom().contains(
                c as i32,
            ) {
                1u8
            } else {
                0u8
            }),
{
    let ghost n = size as int;
    proof {
        lemma_side(n);
    }
    let count: usize = size * size;
    let mut r: Vec<u8> = vec![0u8; count];
    let mut c: usize = 0;
    while c < count
        invariant
            c <= count,
            n == size,
            count == n * n,
            count <= 2147395600,
            r@.len() == n * n,
            forall|d: int|
                0 <= d < c ==> #[trigger] r@[d] == (if river_links@.dom().contains(d as i32) {
                    1u8
                } else {
                    0u8
                }),
            forall|d: int| c <= d < count ==> #[trigger] r@[d] == 0,
        decreases count - c,
    {
        if map_get(river_links, c as i32).is_some() {
            r.set(c, 1);
        }
        c += 1;
    }
    r
}

/// Joins the nodes of each landmass by roads: a backbone through all of them,
/// then up to two spurs from each that is no settlement.
pub fn build_roads(
    world_seed: i32,
    size: usize,
    cells: &[i32],
    elev_code: &[u8],
    nodes: &[GraphNode],
    river_links: &FxHashMap<i32, Vec<Link>>,
    graph: &mut RoadGraph,
)
    requires
        side_ok(size as int),
        size <= 4096,
        cells@.len() == size * size,
        elev_code@.len() == size * size,
        forall|c: int| is_cell(size as int, c) ==> cell_valid(#[trigger] cells@[c]),
        forall|i: int| 0 <= i < nodes@.len() ==> node_placed(size as int, #[trigger] nodes@[i]),
        3 * nodes@.len() <= i32::MAX,
        forall|key: i32| #[trigger] river_links@.contains_key(key) ==> is_cell(size as int, key as int),
        old(graph)@.well_formed(),
    ensures
        final(graph)@.well_formed(),
        if nodes@.len() < 2 {
            final(graph)@ == old(graph)@
        } else {
            roads_built(
                (RoadPlan {
                    world_seed,
                    f: road_land(size as int, cells@, elev_code@, river_links@.dom()),
                    towns: town_mask(size as int, nodes@),
                }),
                nodes@,
                old(graph)@,
                final(graph)@,
            )
        },
{
    if nodes.len() < 2 {
        return ;
    }
    let ghost n = size as int;
    let river_adjacent: Vec<u8> = river_adjacency_mask(size, cells, river_links);
    let channel_mask: Vec<u8> = channel_mask_of(size, river_links);
    let towns: Vec<bool> = towns_of(size, nodes);
    let f = RoadField {
        size,
        cells,
        elev_code,
        river_adjacent: river_adjacent.as_slice(),
        river_channel: channel_mask.as_slice(),
    };
    let ghost land = road_land(n, cells@, elev_code@, river_links@.dom());
    proof {
        lemma_side(n);
        assert(f@.river_adjacent =~= land.river_adjacent) by {
            assert forall|c: int| 0 <= c < n * n implies f@.river_adjacent[c]
                == land.river_adjacent[c] by {
                assert(river_adjacent@[c] <= 1);
            }
        }
        assert(f@.river_channel =~= land.river_channel);
        assert(f@ == land);
    }
    let ghost plan = RoadPlan { world_seed, f: land, towns: towns@ };
    let ghost st0 = RoadState { graph: graph@, serial: 0 };
    let masses: Vec<i32> = mass_list(nodes);
    let ghost mut tried: Seq<Seq<Attempt>> = Seq::empty();
    let mut serial: i32 = 0;
    let ghost mut used: Seq<usize> = Seq::empty();
    let mut m: usize = 0;
    while m < masses.len()
        invariant
            m <= masses@.len(),
            n == size,
            side_ok(n),
            size <= 4096,
            f@ == land,
            f.size == size,
            f.cells@ == cells@,
            f@.well_formed(),
            towns@.len() == n * n,
            plan == (RoadPlan { world_seed, f: land, towns: towns@ }),
            forall|i: int| 0 <= i < nodes@.len() ==> node_placed(n, #[trigger] nodes@[i]),
            3 * nodes@.len() <= i32::MAX,
            is_mass_list(nodes@, masses@),
            graph@.well_formed(),
            tried.len() == m,
            0 <= serial <= 3 * used.len(),
            used.no_duplicates(),
            used.len() <= nodes@.len(),
            forall|k: int| 0 <= k < used.len() ==> (#[trigger] used[k]) < nodes@.len(),
            forall|k: int|
                0 <= k < used.len() ==> masses@.take(m as int).contains(
                    nodes@[#[trigger] used[k] as int].landmass,
                ),
            forall|k: int|
                0 <= k < m ==> mass_tried(plan, nodes@, masses@[k], #[trigger] tried[k]),
            plan.after_all(st0, spurs_flat(tried, m as nat)) == (RoadState {
                graph: graph@,
                serial: serial as int,
            }),
        decreases masses@.len() - m,
    {
        let mass: i32 = masses[m];
        let members: Vec<usize> = mass_members(nodes, mass);
        let ghost g = Group { size: n, cells: cells@, nodes: nodes@, members: members@ };
        let ghost graph_b = graph@;
        let ghost serial_b = serial as int;
        let ghost mut attempts: Seq<Attempt> = Seq::empty();
        let ghost used_b = used;
        proof {
            used = used + members@;
            lemma_used(nodes@, masses@, m as int, used_b, members@);
        }
        if members.len() >= 2 {
            assert(group_of(f.size, f.cells, nodes, &members) == g);
            serial = roads_of_group(world_seed, &f, nodes, &members, &towns, serial, graph);
            proof {
                attempts = choose|attempts: Seq<Attempt>|
                    #[trigger] group_tried(plan, g, attempts) && plan.after_all(
                        RoadState { graph: graph_b, serial: serial_b },
                        attempts,
                    ) == (RoadState { graph: graph@, serial: serial as int });
            }
        }
        proof {
            assert(is_mass_members(nodes@, mass, members@));
            assert(mass_tried(plan, nodes@, mass, attempts));
            let earlier = tried;
            tried = earlier.push(attempts);
            lemma_flat_push(earlier, attempts, m as nat);
            lemma_after_concat(plan, st0, spurs_flat(earlier, m as nat), attempts);
            assert(spurs_flat(tried, (m + 1) as nat) == spurs_flat(earlier, m as nat) + attempts);
            assert forall|k: int| 0 <= k < m + 1 implies mass_tried(
                plan,
                nodes@,
                masses@[k],
                #[trigger] tried[k],
            ) by {
                if k < m {
                    assert(tried[k] == earlier[k]);
                }
            }
        }
        m += 1;
    }
    assert(roads_built(plan, nodes@, st0.graph, graph@)) by {
        assert(tried.len() == masses@.len());
    }
}

/// The members of one more landmass are further nodes.
proof fn lemma_used(
    nodes: Seq<GraphNode>,
    masses: Seq<i32>,
    m: int,
    used: Seq<usize>,
    members: Seq<usize>,
)
    requires
        0 <= m < masses.len(),
        masses.no_duplicates(),
        is_mass_members(nodes, masses[m], members),
        3 * nodes.len() <= i32::MAX,
        used.no_duplicates(),
        forall|k: int| 0 <= k < used.len() ==> (#[trigger] used[k]) < nodes.len(),
        forall|k: int|
            0 <= k < used.len() ==> masses.take(m).contains(
                nodes[#[trigger] used[k] as int].landmass,
            ),
    ensures
        ({
            let now = used + members;
            &&& now.no_duplicates()
            &&& now.len() <= nodes.len()
            &&& forall|k: int| 0 <= k < now.len() ==> (#[trigger] now[k]) < nodes.len()
            &&& forall|k: int|
                0 <= k < now.len() ==> masses.take(m + 1).contains(
                    nodes[#[trigger] now[k] as int].landmass,
                )
        }),
{
    let now = used + members;
    assert forall|k: int| 0 <= k < now.len() implies (#[trigger] now[k]) < nodes.len()
        && masses.take(m + 1).contains(nodes[now[k] as int].landmass) by {
        if k < used.len() {
            assert(now[k] == used[k]);
            let x = choose|x: int|
                0 <= x < masses.take(m).len() && masses.take(m)[x]
                    == nodes[used[k] as int].landmass;
            assert(masses.take(m + 1)[x] == nodes[now[k] as int].landmass);
        } else {
            assert(now[k] == members[k - used.len()]);
            assert(members.contains((now[k] as int) as usize));
            assert(nodes[now[k] as int].landmass == masses[m]);
            assert(masses.take(m + 1)[m] == masses[m]);
        }
    }
    assert forall|i: int, j: int| 0 <= i < now.len() && 0 <= j < now.len() && i != j implies now[i]
        != now[j] by {
        let a = if i < j { i } else { j };
        let b = if i < j { j } else { i };
        if a < used.len() && b >= used.len() {
            assert(now[a] == used[a]);
            assert(now[b] == members[b - used.len()]);
            assert(members.contains((now[b] as int) as usize));
            assert(nodes[now[b] as int].landmass == masses[m]);
            let x = choose|x: int|
                0 <= x < masses.take(m).len() && masses.take(m)[x]
                    == nodes[used[a] as int].landmass;
            assert(masses[x] == nodes[used[a] as int].landmass);
            assert(masses[x] != masses[m]);
        } else if b < used.len() {
            assert(now[a] == used[a] && now[b] == used[b]);
        } else {
            assert(now[a] == members[a - used.len()] && now[b] == members[b - used.len()]);
        }
    }
    let t = now.map_values(|x: usize| x as i32);
    assert forall|i: int| 0 <= i < t.len() implies 0 <= #[trigger] t[i] < nodes.len() by {
        assert(now[i] < nodes.len());
    }
    assert forall|i: int, j: int| 0 <= i < t.len() && 0 <= j < t.len() && i != j implies t[i]
        != t[j] by {
        assert(now[i] < nodes.len() && now[j] < nodes.len());
        assert(now[i] != now[j]);
    }
    crate::atlas::grid::lemma_distinct_len(t, nodes.len() as int);
}

} // verus!
