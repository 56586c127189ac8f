//! What seeded nodes are: each kind stands on the ground it is named for.

use crate::atlas::biomes::{biome_number, Biome};
use crate::atlas::drainage::wet;
use crate::atlas::features::NodeKind;
use crate::atlas::grid::{
    cell_number, cell_x, cell_z, inside, is_cell, lemma_coords_of_number, lemma_side, side_ok,
};
use crate::atlas::landmask::collar_of;
use crate::atlas::nodes::{
    all_offers, before_seeding, column_run, connected, dig_run, dungeon_collar, dungeon_fits,
    dungeon_goal, dungeon_spacing, dungeon_tried, fill_run, founded, lake_at, lake_near,
    lemma_repopulated_valid, max_of, node_collar, node_goal, node_spacing, node_tried, nodes_seeded,
    raster_run, road_node_kind, roam_run, settle_run, settled_at, settlement_fits, settlement_goal,
    settlement_people, tier_drawn, tier_site, weight_upto, NodeGround, NodeState,
};
use crate::atlas::pack::{cell_biome_id, cell_elevation, cell_pop, cell_relief, cell_valid};
use crate::atlas::population::{
    drawn_population, is_mouth, land_metres, level_ground, mouth_steps, rise_at, rivers_around,
    site_of, with_population, SettlementSite,
};
use crate::atlas::seeds::layer_seed_of;
use crate::atlas::roads::around;
use crate::atlas::stages::people_settled;
use crate::atlas::types::{GraphNode, Link};
use crate::rng::{drawn, fraction_of, Draw};
use vstd::prelude::*;

verus! {

/// A lake lies within two columns and two rows of `(ax, az)`.
pub open spec fn lake_within_two(size: int, lake_id: Seq<i32>, ax: int, az: int) -> bool {
    exists|x: int, z: int|
        -2 <= x - ax <= 2 && -2 <= z - az <= 2 && 0 <= x < size && 0 <= z < size
            && lake_id[#[trigger] cell_number(size, x, z)] >= 0
}

/// A node stands on the ground of its kind: settlements on level ground, coastal gates on
/// the coast, lake shores within two cells of a lake, passes high up where the ground is
/// rough, landmarks and reserved claims on none of these. Dungeons lie away from lakes on
/// level ground, neither rough nor low, in the wilds of the land and where few people live.
pub open spec fn suits(g: NodeGround, cells: Seq<i32>, n: GraphNode) -> bool {
    let cell = cells[n.cell as int];
    let id = cell_biome_id(cell) as int;
    let coast = id == biome_number(Biome::Coast);
    let lake = lake_within_two(g.size, g.lake_id, n.ax as int, n.az as int);
    let high = cell_relief(cell) >= 25 && cell_elevation(cell) >= 141;
    let level = level_ground(g.size, cells, n.ax as int, n.az as int);
    match n.kind {
        NodeKind::Settlement => level,
        NodeKind::CoastalGate => coast,
        NodeKind::LakeShore => !coast && lake,
        NodeKind::Pass => !coast && !lake && high,
        NodeKind::Landmark => !coast && !lake && !high,
        NodeKind::ClaimReserved => !coast && !lake && !high,
        NodeKind::Dungeon => level && !lake && cell_relief(cell) <= 32 && cell_elevation(cell) >= 30
            && (id == biome_number(Biome::Plains) || id == biome_number(Biome::Forest) || id
            == biome_number(Biome::Arid) || id == biome_number(Biome::Alpine) || id == biome_number(
            Biome::Tundra,
        )),
    }
}

/// Every node suits its ground and lies on the grid.
pub open spec fn all_suit(g: NodeGround, st: NodeState) -> bool {
    &&& st.cells.len() == g.size * g.size
    &&& forall|c: int| is_cell(g.size, c) ==> cell_valid(#[trigger] st.cells[c])
    &&& forall|i: int|
        0 <= i < st.nodes.len() ==> {
            &&& inside(g.size, (#[trigger] st.nodes[i]).ax as int, st.nodes[i].az as int)
            &&& st.nodes[i].cell == cell_number(
                g.size,
                st.nodes[i].ax as int,
                st.nodes[i].az as int,
            )
            &&& suits(g, st.cells, st.nodes[i])
        }
}

proof fn lemma_lake_near(size: int, lake_id: Seq<i32>, ax: int, az: int)
    ensures
        lake_near(size, lake_id, ax, az) == lake_within_two(size, lake_id, ax, az),
{
    if lake_near(size, lake_id, ax, az) {
        let (x, z) = choose|x: int, z: int|
            ax - 2 <= x <= ax + 2 && az - 2 <= z <= az + 2 && #[trigger] lake_at(
                size,
                lake_id,
                x,
                z,
            );
        assert(lake_id[cell_number(size, x, z)] >= 0);
    }
    if lake_within_two(size, lake_id, ax, az) {
        let (x, z) = choose|x: int, z: int|
            -2 <= x - ax <= 2 && -2 <= z - az <= 2 && 0 <= x < size && 0 <= z < size
                && lake_id[#[trigger] cell_number(size, x, z)] >= 0;
        assert(lake_at(size, lake_id, x, z));
    }
}

/// Cells with the same biomes, heights and relief.
pub open spec fn same_land(size: int, a: Seq<i32>, b: Seq<i32>) -> bool {
    &&& a.len() == b.len()
    &&& forall|c: int|
        is_cell(size, c) ==> {
            &&& cell_biome_id(#[trigger] a[c]) == cell_biome_id(b[c])
            &&& cell_elevation(a[c]) == cell_elevation(b[c])
            &&& cell_relief(a[c]) == cell_relief(b[c])
        }
}

proof fn lemma_same_metres(size: int, a: Seq<i32>, b: Seq<i32>, ax: int, az: int)
    requires
        side_ok(size),
        same_land(size, a, b),
        forall|c: int| is_cell(size, c) ==> cell_valid(#[trigger] a[c]),
        forall|c: int| is_cell(size, c) ==> cell_valid(#[trigger] b[c]),
    ensures
        land_metres(size, a, ax, az) == land_metres(size, b, ax, az),
{
    if inside(size, ax, az) {
        lemma_coords_of_number(size, ax, az);
        let c = cell_number(size, ax, az);
        assert(cell_biome_id(a[c]) == cell_biome_id(b[c]));
        assert(cell_valid(a[c]) && cell_valid(b[c]));
        assert(wet(a, c) == wet(b, c));
    }
}

proof fn lemma_same_suits(g: NodeGround, a: Seq<i32>, b: Seq<i32>, n: GraphNode)
    requires
        side_ok(g.size),
        same_land(g.size, a, b),
        forall|c: int| is_cell(g.size, c) ==> cell_valid(#[trigger] a[c]),
        forall|c: int| is_cell(g.size, c) ==> cell_valid(#[trigger] b[c]),
        inside(g.size, n.ax as int, n.az as int),
        n.cell == cell_number(g.size, n.ax as int, n.az as int),
        suits(g, a, n),
    ensures
        suits(g, b, n),
{
    let (ax, az) = (n.ax as int, n.az as int);
    lemma_coords_of_number(g.size, ax, az);
    assert(cell_biome_id(a[n.cell as int]) == cell_biome_id(b[n.cell as int]));
    lemma_same_metres(g.size, a, b, ax, az);
    lemma_same_metres(g.size, a, b, ax - 1, az);
    lemma_same_metres(g.size, a, b, ax + 1, az);
    lemma_same_metres(g.size, a, b, ax, az - 1);
    lemma_same_metres(g.size, a, b, ax, az + 1);
}

proof fn lemma_settled_suits(
    g: NodeGround,
    st: NodeState,
    ax: int,
    az: int,
    site: SettlementSite,
    spacing: int,
)
    requires
        side_ok(g.size),
        all_suit(g, st),
    ensures
        all_suit(g, settled_at(g, st, ax, az, site, spacing)),
{
    let to = settled_at(g, st, ax, az, site, spacing);
    if settlement_fits(g, st, ax, az, spacing) {
        let c = cell_number(g.size, ax, az);
        lemma_side(g.size);
        lemma_coords_of_number(g.size, ax, az);
        lemma_repopulated_valid(st.cells[c], settlement_people(st.seed, st.past, site).0);
        assert forall|d: int| is_cell(g.size, d) implies cell_valid(#[trigger] to.cells[d]) by {
            assert(cell_valid(st.cells[d]));
        }
        assert(same_land(g.size, st.cells, to.cells));
        assert forall|i: int| 0 <= i < to.nodes.len() implies {
            &&& inside(g.size, (#[trigger] to.nodes[i]).ax as int, to.nodes[i].az as int)
            &&& to.nodes[i].cell == cell_number(
                g.size,
                to.nodes[i].ax as int,
                to.nodes[i].az as int,
            )
            &&& suits(g, to.cells, to.nodes[i])
        } by {
            let n = to.nodes[i];
            if i < st.nodes.len() {
                assert(n == st.nodes[i]);
            } else {
                assert(n.kind == NodeKind::Settlement);
                assert(suits(g, st.cells, n));
            }
            lemma_same_suits(g, st.cells, to.cells, n);
        }
    }
}

proof fn lemma_tried_suits(g: NodeGround, st: NodeState, ax: int, az: int, spacing: int)
    requires
        side_ok(g.size),
        all_suit(g, st),
    ensures
        all_suit(g, node_tried(g, st, ax, az, spacing)),
        forall|i: int|
            st.nodes.len() <= i < node_tried(g, st, ax, az, spacing).nodes.len() ==> (
            #[trigger] node_tried(g, st, ax, az, spacing).nodes[i]).kind != NodeKind::Settlement,
{
    let to = node_tried(g, st, ax, az, spacing);
    let c = cell_number(g.size, ax, az);
    if inside(g.size, ax, az) && !wet(st.cells, c) && !st.taken[c] {
        lemma_side(g.size);
        lemma_coords_of_number(g.size, ax, az);
        lemma_lake_near(g.size, g.lake_id, ax, az);
        let kind = road_node_kind(g, st, ax, az);
        assert forall|i: int| 0 <= i < to.nodes.len() implies {
            &&& inside(g.size, (#[trigger] to.nodes[i]).ax as int, to.nodes[i].az as int)
            &&& to.nodes[i].cell == cell_number(
                g.size,
                to.nodes[i].ax as int,
                to.nodes[i].az as int,
            )
            &&& suits(g, to.cells, to.nodes[i])
        } by {
            if i < st.nodes.len() {
                assert(to.nodes[i] == st.nodes[i]);
            } else {
                assert(to.nodes[i].kind == kind.0);
            }
        }
    }
}

proof fn lemma_dug_suits(g: NodeGround, st: NodeState, ax: int, az: int, spacing: int)
    requires
        side_ok(g.size),
        all_suit(g, st),
    ensures
        all_suit(g, dungeon_tried(g, st, ax, az, spacing)),
        forall|i: int|
            st.nodes.len() <= i < dungeon_tried(g, st, ax, az, spacing).nodes.len() ==> {
                let n = #[trigger] dungeon_tried(g, st, ax, az, spacing).nodes[i];
                n.kind == NodeKind::Dungeon && cell_pop(
                    dungeon_tried(g, st, ax, az, spacing).cells[n.cell as int],
                ) <= 6
            },
        dungeon_tried(g, st, ax, az, spacing).cells == st.cells,
{
    let to = dungeon_tried(g, st, ax, az, spacing);
    if dungeon_fits(g, st, ax, az, spacing) {
        lemma_side(g.size);
        lemma_coords_of_number(g.size, ax, az);
        lemma_lake_near(g.size, g.lake_id, ax, az);
        assert forall|i: int| 0 <= i < to.nodes.len() implies {
            &&& inside(g.size, (#[trigger] to.nodes[i]).ax as int, to.nodes[i].az as int)
            &&& to.nodes[i].cell == cell_number(
                g.size,
                to.nodes[i].ax as int,
                to.nodes[i].az as int,
            )
            &&& suits(g, to.cells, to.nodes[i])
        } by {
            if i < st.nodes.len() {
                assert(to.nodes[i] == st.nodes[i]);
            } else {
                assert(to.nodes[i].kind == NodeKind::Dungeon);
            }
        }
    }
}

proof fn lemma_settle_run_suits(
    g: NodeGround,
    b: Seq<Seq<i32>>,
    spacing: int,
    target: int,
    st: NodeState,
    placed: int,
    left: nat,
)
    requires
        side_ok(g.size),
        all_suit(g, st),
        placed <= target,
    ensures
        all_suit(g, settle_run(g, b, spacing, target, st, placed, left)),
        settle_run(g, b, spacing, target, st, placed, left).nodes.len() <= st.nodes.len() + target
            - placed,
    decreases left,
{
    let picked = tier_drawn(b, fraction_of(drawn(st.seed, st.past, Draw::Word)));
    if left == 0 || placed >= target || weight_upto(b, 4) == 0 {
    } else if picked is None {
    } else {
        let t = picked->0;
        let ask = Draw::Index { hi: b[t].len() as usize };
        let pick = b[t][drawn(st.seed, st.past.push(Draw::Word), ask)];
        let asked = NodeState { past: st.past.push(Draw::Word).push(ask), ..st };
        let ax = cell_x(g.size, pick as int);
        let az = cell_z(g.size, pick as int);
        lemma_settled_suits(g, asked, ax, az, tier_site(t), spacing);
        lemma_settle_run_suits(
            g,
            b,
            spacing,
            target,
            settled_at(g, asked, ax, az, tier_site(t), spacing),
            placed + if settlement_fits(g, asked, ax, az, spacing) {
                1int
            } else {
                0
            },
            (left - 1) as nat,
        );
    }
}

proof fn lemma_roam_suits(
    g: NodeGround,
    lo: i32,
    hi: i32,
    spacing: int,
    target: int,
    st: NodeState,
    left: nat,
)
    requires
        side_ok(g.size),
        all_suit(g, st),
    ensures
        all_suit(g, roam_run(g, lo, hi, spacing, target, st, left)),
        st.nodes.len() <= target ==> roam_run(g, lo, hi, spacing, target, st, left).nodes.len()
            <= target,
    decreases left,
{
    if left > 0 && st.nodes.len() < target {
        let ask = Draw::Signed { lo, hi };
        let ax = drawn(st.seed, st.past, ask);
        let az = drawn(st.seed, st.past.push(ask), ask);
        let asked = NodeState { past: st.past.push(ask).push(ask), ..st };
        lemma_tried_suits(g, asked, ax, az, spacing);
        lemma_roam_suits(
            g,
            lo,
            hi,
            spacing,
            target,
            node_tried(g, asked, ax, az, spacing),
            (left - 1) as nat,
        );
    }
}

proof fn lemma_column_suits(
    g: NodeGround,
    ax: int,
    az: int,
    stride: int,
    end: int,
    spacing: int,
    target: int,
    st: NodeState,
)
    requires
        side_ok(g.size),
        all_suit(g, st),
    ensures
        all_suit(g, column_run(g, ax, az, stride, end, spacing, target, st)),
    decreases end + stride - az,
{
    if stride > 0 && az < end && st.nodes.len() < target {
        lemma_tried_suits(g, st, ax, az, spacing);
        lemma_column_suits(
            g,
            ax,
            az + stride,
            stride,
            end,
            spacing,
            target,
            node_tried(g, st, ax, az, spacing),
        );
    }
}

proof fn lemma_raster_suits(
    g: NodeGround,
    ax: int,
    start: int,
    stride: int,
    end: int,
    spacing: int,
    target: int,
    st: NodeState,
)
    requires
        side_ok(g.size),
        all_suit(g, st),
    ensures
        all_suit(g, raster_run(g, ax, start, stride, end, spacing, target, st)),
    decreases end + stride - ax,
{
    if stride > 0 && ax < end && st.nodes.len() < target {
        lemma_column_suits(g, ax, start, stride, end, spacing, target, st);
        lemma_raster_suits(
            g,
            ax + stride,
            start,
            stride,
            end,
            spacing,
            target,
            column_run(g, ax, start, stride, end, spacing, target, st),
        );
    }
}

proof fn lemma_fill_suits(g: NodeGround, c: int, spacing: int, want: int, st: NodeState)
    requires
        side_ok(g.size),
        all_suit(g, st),
    ensures
        all_suit(g, fill_run(g, c, spacing, want, st)),
    decreases g.size * g.size - c,
{
    if c < g.size * g.size && st.nodes.len() < want {
        lemma_tried_suits(g, st, cell_x(g.size, c), cell_z(g.size, c), spacing);
        lemma_fill_suits(
            g,
            c + 1,
            spacing,
            want,
            node_tried(g, st, cell_x(g.size, c), cell_z(g.size, c), spacing),
        );
    }
}

proof fn lemma_dig_run_suits(
    g: NodeGround,
    lo: i32,
    hi: i32,
    spacing: int,
    target: int,
    st: NodeState,
    left: nat,
)
    requires
        side_ok(g.size),
        all_suit(g, st),
    ensures
        all_suit(g, dig_run(g, lo, hi, spacing, target, st, left)),
    decreases left,
{
    if left > 0 && crate::atlas::nodes::dungeons_upto(st.nodes, st.nodes.len()) < target {
        let ask = Draw::Signed { lo, hi };
        let ax = drawn(st.seed, st.past, ask);
        let az = drawn(st.seed, st.past.push(ask), ask);
        let asked = NodeState { past: st.past.push(ask).push(ask), ..st };
        lemma_dug_suits(g, asked, ax, az, spacing);
        lemma_dig_run_suits(
            g,
            lo,
            hi,
            spacing,
            target,
            dungeon_tried(g, asked, ax, az, spacing),
            (left - 1) as nat,
        );
    }
}

/// On a continent without nodes yet, every node that seeding puts suits the ground it stands
/// on, and no more settlements are founded than a tenth of the side, held to 4 and 220.
pub proof fn law_seeded_nodes_suit_their_ground(
    g: NodeGround,
    cells: Seq<i32>,
    landmass: Seq<i32>,
)
    requires
        side_ok(g.size),
        cells.len() == g.size * g.size,
        landmass.len() == g.size * g.size,
        forall|c: int| is_cell(g.size, c) ==> cell_valid(#[trigger] cells[c]),
    ensures
        all_suit(g, nodes_seeded(g, before_seeding(g, cells, landmass, Seq::empty()))),
        founded(g, before_seeding(g, cells, landmass, Seq::empty())).nodes.len() <= if g.size < 50 {
            4
        } else if g.size > 2200 {
            220
        } else {
            g.size / 10
        },
{
    let st = before_seeding(g, cells, landmass, Seq::empty());
    let goal = node_goal(g.size);
    let collar = node_collar(g.size);
    let gap = node_spacing(g.size);
    let towns = founded(g, st);
    lemma_settle_run_suits(
        g,
        all_offers(g, st.cells),
        gap,
        settlement_goal(g.size),
        st,
        0,
        (settlement_goal(g.size) * 500) as nat,
    );
    let roamed = roam_run(
        g,
        collar as i32,
        (g.size - collar) as i32,
        gap,
        goal,
        towns,
        (goal * 120) as nat,
    );
    lemma_roam_suits(
        g,
        collar as i32,
        (g.size - collar) as i32,
        gap,
        goal,
        towns,
        (goal * 120) as nat,
    );
    let stride = max_of(gap, 4);
    let at = collar + stride / 2;
    lemma_raster_suits(g, at, at, stride, g.size - collar, gap, goal, roamed);
    let swept = if roamed.nodes.len() < goal {
        raster_run(g, at, at, stride, g.size - collar, gap, goal, roamed)
    } else {
        roamed
    };
    lemma_fill_suits(g, 0, max_of(gap / 2, 2), max_of(goal, 4), swept);
    let roads = connected(g, towns);
    let fresh = NodeState {
        seed: layer_seed_of(g.world_seed, "atlas_dungeons"@) as u64,
        past: Seq::empty(),
        ..roads
    };
    lemma_dig_run_suits(
        g,
        dungeon_collar(g.size) as i32,
        (g.size - dungeon_collar(g.size)) as i32,
        dungeon_spacing(g.size),
        dungeon_goal(g.size),
        fresh,
        (dungeon_goal(g.size) * 400) as nat,
    );
}

/// How many nodes a continent aims for and how far they keep apart: a tenth of the side in
/// road nodes and in settlements, a twentieth in dungeons, each within its bounds; a
/// thirty-sixth of the side between nodes, three steps at the least.
pub proof fn law_node_goals_follow_the_side(size: int)
    requires
        side_ok(size),
    ensures
        120 <= size <= 960 ==> 10 * node_goal(size) <= size < 10 * node_goal(size) + 10,
        12 <= node_goal(size) <= 96,
        40 <= size <= 2200 ==> 10 * settlement_goal(size) <= size < 10 * settlement_goal(size) + 10,
        4 <= settlement_goal(size) <= 220,
        40 <= size <= 2400 ==> 20 * dungeon_goal(size) <= size < 20 * dungeon_goal(size) + 20,
        2 <= dungeon_goal(size) <= 120,
        size >= 108 ==> 36 * node_spacing(size) <= size < 36 * node_spacing(size) + 36,
        node_spacing(size) >= 3,
        node_collar(size) >= 2,
        2 * node_collar(size) < size || size < 8,
        3 <= dungeon_spacing(size),
        size >= 24 ==> node_spacing(size) <= dungeon_spacing(size) && 4 <= dungeon_spacing(size),
        dungeon_collar(size) >= 2,
        collar_of(size) + 2 < size / 4 ==> dungeon_collar(size) == collar_of(size) + 2
            && node_collar(size) == collar_of(size) + 2,
{
}

/// Whom a new settlement draws: ten to fifteen people at a river mouth, eight to fourteen at
/// a confluence, six to twelve near a river, four to ten inland. Six in a hundred inland
/// sites draw ten to fifteen instead, eight in a hundred river mouths six to nine.
pub proof fn law_settlements_draw_their_people(seed: u64, past: Seq<Draw>, site: SettlementSite)
    ensures
        ({
            let people = settlement_people(seed, past, site).0;
            let first = match site {
                SettlementSite::RiverMouth => Draw::Signed { lo: 10, hi: 16 },
                SettlementSite::Confluence => Draw::Signed { lo: 8, hi: 15 },
                SettlementSite::NearRiver => Draw::Signed { lo: 6, hi: 13 },
                SettlementSite::Inland => Draw::Signed { lo: 4, hi: 11 },
            };
            let chance = fraction_of(drawn(seed, past.push(first), Draw::Word));
            let then = past.push(first).push(Draw::Word);
            &&& site == SettlementSite::Confluence || site == SettlementSite::NearRiver ==> people
                == drawn(seed, past, first)
            &&& site == SettlementSite::Inland && 100 * chance >= 6 * 0x100_0000 ==> people
                == drawn(seed, past, first)
            &&& site == SettlementSite::Inland && 100 * chance < 6 * 0x100_0000 ==> people == drawn(
                seed,
                then,
                Draw::Signed { lo: 10, hi: 16 },
            )
            &&& site == SettlementSite::RiverMouth && 100 * chance >= 8 * 0x100_0000 ==> people
                == drawn(seed, past, first)
            &&& site == SettlementSite::RiverMouth && 100 * chance < 8 * 0x100_0000 ==> people
                == drawn(seed, then, Draw::Signed { lo: 6, hi: 10 })
        }),
{
}

/// Eight in a hundred road nodes without a feature of the ground are reserved claims.
pub proof fn law_some_landmarks_are_claims(g: NodeGround, st: NodeState, ax: int, az: int)
    ensures
        ({
            let kind = road_node_kind(g, st, ax, az).0;
            let chance = fraction_of(drawn(st.seed, st.past, Draw::Word));
            &&& kind == NodeKind::ClaimReserved ==> 100 * chance < 8 * 0x100_0000
            &&& kind == NodeKind::Landmark ==> 100 * chance >= 8 * 0x100_0000
            &&& kind != NodeKind::Settlement && kind != NodeKind::Dungeon
        }),
{
}

/// A site is a river mouth where a river runs out, a confluence on a river with two or more
/// river cells around it, near a river on one or beside one, and inland elsewhere.
pub proof fn law_sites_follow_the_rivers(size: int, rivers: Set<i32>, mouth: Seq<i32>, c: int)
    ensures
        ({
            let site = site_of(size, rivers, mouth, c);
            let around = rivers_around(size, rivers, c, 8);
            let on = rivers.contains(c as i32);
            &&& site == SettlementSite::RiverMouth <==> mouth[c] == 0
            &&& site == SettlementSite::Confluence <==> mouth[c] != 0 && on && around >= 2
            &&& site == SettlementSite::NearRiver <==> mouth[c] != 0 && (on && around <= 1 || !on
                && around >= 1)
            &&& site == SettlementSite::Inland <==> mouth[c] != 0 && !on && around <= 0
        }),
{
}

/// Ground where all the land around is of one height is level, whatever lies beyond the
/// land. Ground that rises fifty-five metres over two cells, along one axis, is not.
pub proof fn law_flat_land_is_level(size: int, cells: Seq<i32>, ax: int, az: int, h: int)
    requires
        land_metres(size, cells, ax, az) == Some(h),
    ensures
        (forall|dx: int, dz: int|
            -1 <= dx <= 1 && -1 <= dz <= 1 ==> (#[trigger] land_metres(
                size,
                cells,
                ax + dx,
                az + dz,
            ) is None || land_metres(size, cells, ax + dx, az + dz) == Some(h))) ==> level_ground(
            size,
            cells,
            ax,
            az,
        ),
        land_metres(size, cells, ax - 1, az) is Some && land_metres(size, cells, ax + 1, az)
            is Some && land_metres(size, cells, ax + 1, az)->0 - land_metres(
            size,
            cells,
            ax - 1,
            az,
        )->0 >= 55 ==> !level_ground(size, cells, ax, az),
        land_metres(size, cells, ax, az - 1) is Some && land_metres(size, cells, ax, az + 1)
            is Some && land_metres(size, cells, ax, az + 1)->0 - land_metres(
            size,
            cells,
            ax,
            az - 1,
        )->0 >= 55 ==> !level_ground(size, cells, ax, az),
{
    let rise = rise_at(size, cells, ax, az)->0;
    if forall|dx: int, dz: int|
        -1 <= dx <= 1 && -1 <= dz <= 1 ==> (#[trigger] land_metres(size, cells, ax + dx, az + dz)
            is None || land_metres(size, cells, ax + dx, az + dz) == Some(h)) {
        let w = land_metres(size, cells, ax + (-1), az + 0);
        let e = land_metres(size, cells, ax + 1, az + 0);
        let n = land_metres(size, cells, ax + 0, az + (-1));
        let s = land_metres(size, cells, ax + 0, az + 1);
        assert(rise == (0int, 0int));
    }
    assert(rise.0 >= 55 ==> rise.0 * rise.0 >= 3025) by (nonlinear_arith);
    assert(rise.1 >= 55 ==> rise.1 * rise.1 >= 3025) by (nonlinear_arith);
    assert(rise.0 * rise.0 >= 0 && rise.1 * rise.1 >= 0) by (nonlinear_arith);
}

/// How many people land draws: none below the threshold, from one to fifteen above it, and
/// never fewer for a higher score.
pub proof fn law_people_come_with_the_score(steps: i32, more: i32)
    requires
        steps <= more,
    ensures
        drawn_population(None) == 0,
        1 <= drawn_population(Some(steps)) <= drawn_population(Some(more)) <= 15,
        0 <= steps <= 14 ==> drawn_population(Some(steps)) == steps + 1,
{
}

/// Where people settled nobody lives on water, land draws its people by its score, and the
/// ground stays as it was.
pub proof fn law_people_settle_on_land(
    size: int,
    cells0: Seq<i32>,
    links: Map<i32, Seq<Link>>,
    steps: Seq<Option<i32>>,
    mouths: Seq<i32>,
    cells: Seq<i32>,
    c: int,
)
    requires
        people_settled(size, cells0, links, steps, mouths, cells),
        is_cell(size, c),
        cell_valid(cells0[c]),
    ensures
        wet(cells0, c) ==> cell_pop(cells[c]) == 0,
        !wet(cells0, c) ==> (cell_pop(cells[c]) > 0 <==> steps[c] is Some),
        !wet(cells0, c) && steps[c] is Some && 0 <= steps[c]->0 <= 14 ==> cell_pop(cells[c])
            == steps[c]->0 + 1,
        cell_biome_id(cells[c]) == cell_biome_id(cells0[c]),
        cell_elevation(cells[c]) == cell_elevation(cells0[c]),
        cell_relief(cells[c]) == cell_relief(cells0[c]),
{
    let pop = if wet(cells0, c) {
        0
    } else {
        drawn_population(steps[c])
    };
    lemma_repopulated_valid(cells0[c], pop);
    assert(cells[c] == with_population(cells0[c], pop));
}

/// A cell lies no steps from a river mouth exactly where it is one, and never more than the
/// steps that are looked for. Looking farther finds what was found before.
pub proof fn law_mouths_are_near(
    size: int,
    cells: Seq<i32>,
    links: Map<i32, Seq<Link>>,
    c: int,
    cap: nat,
)
    ensures
        -1 <= mouth_steps(size, cells, links, c, cap) <= cap,
        mouth_steps(size, cells, links, c, cap) == 0 <==> is_mouth(links, c),
        mouth_steps(size, cells, links, c, cap) >= 0 ==> mouth_steps(
            size,
            cells,
            links,
            c,
            (cap + 1) as nat,
        ) == mouth_steps(size, cells, links, c, cap),
        mouth_steps(size, cells, links, c, cap) > 0 ==> !wet(cells, c),
    decreases cap,
{
    if cap > 0 {
        law_mouths_are_near(size, cells, links, c, (cap - 1) as nat);
    }
}

/// A dry cell beside one that lies so many steps from a river mouth lies one step more from it
/// at the most.
pub proof fn law_mouths_are_a_step_away(
    size: int,
    cells: Seq<i32>,
    links: Map<i32, Seq<Link>>,
    c: int,
    k: int,
    cap: nat,
)
    requires
        0 <= k < 8,
        around(size, c, k) is Some,
        !wet(cells, c),
        mouth_steps(size, cells, links, around(size, c, k)->0, cap) >= 0,
    ensures
        0 <= mouth_steps(size, cells, links, c, cap + 1) <= cap + 1,
{
    law_mouths_are_near(size, cells, links, c, cap);
    assert(around(size, c, k) is Some);
}

} // verus!
