//! Road, settlement and dungeon nodes, drawn from the world seed.

use crate::atlas::biomes::{biome_number, is_land, Biome};
use crate::atlas::drainage::wet;
use crate::atlas::features::{node_kind_number, NodeKind};
use crate::atlas::grid::{
    cell_number, cell_x, cell_z, in_bounds, index_of, inside, is_cell, lemma_cell_coords,
    lemma_coords_of_number, lemma_side, side_ok,
};
use crate::atlas::landmask::{collar_cells, collar_of};
use crate::atlas::pack::{
    biome, cell_biome, cell_biome_id, cell_elevation, cell_humidity, cell_pop, cell_relief,
    cell_valid, clamp_i, clamped, elevation, law_pack_round_trip, lemma_cell_biome,
    lemma_field_ranges, population, relief,
};
use crate::atlas::population::{
    cell_is_settlement_flat, classify_settlement_site, level_ground, repopulated, site_of,
    site_weight, with_population, SettlementSite,
};
use crate::atlas::seeds::{
    decimal_text, feature_hash, feature_hash_of, layer_seed, layer_seed_of, part_views,
};
use crate::atlas::types::{GraphNode, Link};
use crate::rng::{
    drawn, fraction_of, rng_fraction, rng_index, rng_past, rng_range, rng_seeded, Draw,
};
use crate::text::decimal;
use crate::rounding::{law_rounding_stays_close, round_single, single, SINGLE};
use rand_chacha::ChaCha8Rng;
use rustc_hash::FxHashMap;
use vstd::prelude::*;
use vstd::string::*;

verus! {

/// Fewer than this many people leave a cell free for a dungeon.
pub const SETTLEMENT_MIN_POP: i32 = 7;

/// The ground nodes are seeded on: cells, landmass labels, cells taken by a node,
/// the nodes so far, and the generator the draws come from.
pub struct NodeField {
    pub cells: Vec<i32>,
    pub landmass_id: Vec<i32>,
    pub taken: Vec<bool>,
    pub nodes: Vec<GraphNode>,
    pub rng: ChaCha8Rng,
}

/// A [`NodeField`] as sequences, its generator as seed and past draws.
pub ghost struct NodeState {
    pub cells: Seq<i32>,
    pub landmass: Seq<i32>,
    pub taken: Seq<bool>,
    pub nodes: Seq<GraphNode>,
    pub seed: u64,
    pub past: Seq<Draw>,
}

impl View for NodeField {
    type V = NodeState;

    open spec fn view(&self) -> NodeState {
        NodeState {
            cells: self.cells@,
            landmass: self.landmass_id@,
            taken: self.taken@,
            nodes: self.nodes@,
            seed: rng_past(self.rng).0,
            past: rng_past(self.rng).1,
        }
    }
}

/// What does not change while nodes are seeded.
pub ghost struct NodeGround {
    pub world_seed: i32,
    pub size: int,
    pub lake_id: Seq<i32>,
    pub rivers: Set<i32>,
    pub mouth: Seq<i32>,
}

impl NodeState {
    /// Planes of the right size, valid cells, and nodes on the grid.
    pub open spec fn well_formed(self, size: int) -> bool {
        &&& self.cells.len() == size * size
        &&& self.landmass.len() == size * size
        &&& self.taken.len() == size * size
        &&& forall|c: int| is_cell(size, c) ==> cell_valid(#[trigger] self.cells[c])
        &&& forall|i: int|
            0 <= i < self.nodes.len() ==> inside(
                size,
                (#[trigger] self.nodes[i]).ax as int,
                self.nodes[i].az as int,
            )
    }
}

/// Steps along the axes from a node to `(ax, az)`.
pub open spec fn node_steps(n: GraphNode, ax: int, az: int) -> int {
    (if n.ax < ax {
        ax - n.ax
    } else {
        n.ax - ax
    }) + (if n.az < az {
        az - n.az
    } else {
        n.az - az
    })
}

fn steps_from(n: &GraphNode, ax: i32, az: i32, size: usize) -> (r: i32)
    requires
        side_ok(size as int),
        inside(size as int, ax as int, az as int),
        inside(size as int, n.ax as int, n.az as int),
    ensures
        r == node_steps(*n, ax as int, az as int),
{
    let dx: i32 = if n.ax < ax {
        ax - n.ax
    } else {
        n.ax - ax
    };
    let dz: i32 = if n.az < az {
        az - n.az
    } else {
        n.az - az
    };
    dx + dz
}

/// The room a node of kind `kind` asks from one of kind `other`: `spacing`, one
/// more for a dungeon from a settlement, none for a settlement from anything but
/// settlements.
pub open spec fn room(kind: NodeKind, other: NodeKind, spacing: int) -> int {
    if kind == NodeKind::Settlement {
        if other == NodeKind::Settlement {
            spacing
        } else {
            0
        }
    } else if kind == NodeKind::Dungeon && other == NodeKind::Settlement {
        spacing + 1
    } else {
        spacing
    }
}

/// Every node leaves the room that a node of kind `kind` at `(ax, az)` asks.
pub open spec fn has_room(
    nodes: Seq<GraphNode>,
    kind: NodeKind,
    ax: int,
    az: int,
    spacing: int,
) -> bool {
    forall|i: int|
        0 <= i < nodes.len() ==> node_steps(#[trigger] nodes[i], ax, az) >= room(
            kind,
            nodes[i].kind,
            spacing,
        )
}

fn leaves_room(
    nodes: &Vec<GraphNode>,
    kind: NodeKind,
    ax: i32,
    az: i32,
    size: usize,
    spacing: i32,
) -> (r: bool)
    requires
        side_ok(size as int),
        inside(size as int, ax as int, az as int),
        0 <= spacing <= 100000,
        forall|i: int|
            0 <= i < nodes@.len() ==> inside(
                size as int,
                (#[trigger] nodes@[i]).ax as int,
                nodes@[i].az as int,
            ),
    ensures
        r == has_room(nodes@, kind, ax as int, az as int, spacing as int),
{
    let mut i: usize = 0;
    while i < nodes.len()
        invariant
            i <= nodes@.len(),
            side_ok(size as int),
            inside(size as int, ax as int, az as int),
            0 <= spacing <= 100000,
            forall|i: int|
                0 <= i < nodes@.len() ==> inside(
                    size as int,
                    (#[trigger] nodes@[i]).ax as int,
                    nodes@[i].az as int,
                ),
            forall|j: int|
                0 <= j < i ==> node_steps(#[trigger] nodes@[j], ax as int, az as int) >= room(
                    kind,
                    nodes@[j].kind,
                    spacing as int,
                ),
        decreases nodes@.len() - i,
    {
        let n: GraphNode = nodes[i];
        let need: i32 = if kind == NodeKind::Settlement {
            if n.kind == NodeKind::Settlement {
                spacing
            } else {
                0
            }
        } else if kind == NodeKind::Dungeon && n.kind == NodeKind::Settlement {
            spacing + 1
        } else {
            spacing
        };
        if steps_from(&n, ax, az, size) < need {
            assert(node_steps(nodes@[i as int], ax as int, az as int) < room(
                kind,
                nodes@[i as int].kind,
                spacing as int,
            ));
            return false;
        }
        i += 1;
    }
    true
}

/// A lake cell of the grid.
pub open spec fn lake_at(size: int, lake_id: Seq<i32>, ax: int, az: int) -> bool {
    inside(size, ax, az) && lake_id[cell_number(size, ax, az)] >= 0
}

/// A lake cell lies at most two columns and two rows away.
pub open spec fn lake_near(size: int, lake_id: Seq<i32>, ax: int, az: int) -> bool {
    exists|x: int, z: int|
        ax - 2 <= x <= ax + 2 && az - 2 <= z <= az + 2 && #[trigger] lake_at(size, lake_id, x, z)
}

pub fn near_lake(ax: i32, az: i32, size: usize, lake_id: &[i32]) -> (r: bool)
    requires
        side_ok(size as int),
        inside(size as int, ax as int, az as int),
        lake_id@.len() == size * size,
    ensures
        r == lake_near(size as int, lake_id@, ax as int, az as int),
{
    let mut z: i32 = az - 2;
    while z <= az + 2
        invariant
            side_ok(size as int),
            inside(size as int, ax as int, az as int),
            lake_id@.len() == size * size,
            az - 2 <= z <= az + 3,
            forall|x: int, w: int|
                ax - 2 <= x <= ax + 2 && az - 2 <= w < z ==> !#[trigger] lake_at(
                    size as int,
                    lake_id@,
                    x,
                    w,
                ),
        decreases az + 3 - z,
    {
        let mut x: i32 = ax - 2;
        while x <= ax + 2
            invariant
                side_ok(size as int),
                inside(size as int, ax as int, az as int),
                lake_id@.len() == size * size,
                az - 2 <= z <= az + 2,
                ax - 2 <= x <= ax + 3,
                forall|u: int, w: int|
                    ax - 2 <= u <= ax + 2 && az - 2 <= w < z ==> !#[trigger] lake_at(
                        size as int,
                        lake_id@,
                        u,
                        w,
                    ),
                forall|u: int|
                    ax - 2 <= u < x ==> !#[trigger] lake_at(size as int, lake_id@, u, z as int),
            decreases ax + 3 - x,
        {
            if in_bounds(x, z, size) {
                if lake_id[index_of(x, z, size)] >= 0 {
                    assert(lake_at(size as int, lake_id@, x as int, z as int));
                    return true;
                }
            }
            assert(!lake_at(size as int, lake_id@, x as int, z as int));
            x += 1;
        }
        z += 1;
    }
    false
}

/// A landmass label, the first one where there is none.
pub open spec fn mass_of(landmass: Seq<i32>, c: int) -> i32 {
    if landmass[c] < 0 {
        0
    } else {
        landmass[c]
    }
}

/// The id of a node.
pub open spec fn node_id_of(world_seed: i32, ax: int, az: int, kind: NodeKind) -> i32 {
    feature_hash_of(
        seq![
            decimal(world_seed as int),
            "node"@,
            decimal(ax),
            decimal(az),
            decimal(node_kind_number(kind)),
        ],
    )
}

fn node_id(world_seed: i32, ax: i32, az: i32, kind: NodeKind) -> (r: i32)
    ensures
        r == node_id_of(world_seed, ax as int, az as int, kind),
{
    let seed_text: String = decimal_text(world_seed as i64);
    let ax_text: String = decimal_text(ax as i64);
    let az_text: String = decimal_text(az as i64);
    let kind_text: String = decimal_text(kind.number() as i64);
    let parts: [&str; 5] = [
        seed_text.as_str(),
        "node",
        ax_text.as_str(),
        az_text.as_str(),
        kind_text.as_str(),
    ];
    assert(part_views(parts@) =~= seq![
        decimal(world_seed as int),
        "node"@,
        decimal(ax as int),
        decimal(az as int),
        decimal(node_kind_number(kind)),
    ]);
    feature_hash(&parts)
}

impl NodeState {
    /// The cell labelled with the first landmass where it had no label.
    pub open spec fn with_mass(self, c: int) -> NodeState {
        NodeState { landmass: self.landmass.update(c, mass_of(self.landmass, c)), ..self }
    }

    /// A node of kind `kind` stands at `(ax, az)`.
    pub open spec fn with_node(
        self,
        g: NodeGround,
        ax: int,
        az: int,
        kind: NodeKind,
    ) -> NodeState {
        let c = cell_number(g.size, ax, az);
        NodeState {
            landmass: self.landmass.update(c, mass_of(self.landmass, c)),
            taken: self.taken.update(c, true),
            nodes: self.nodes.push(
                GraphNode {
                    id: node_id_of(g.world_seed, ax, az, kind),
                    kind,
                    cell: c as i32,
                    ax: ax as i32,
                    az: az as i32,
                    landmass: mass_of(self.landmass, c),
                },
            ),
            ..self
        }
    }
}

impl NodeField {
    /// Labels the cell and puts a node on it.
    fn put_node(
        &mut self,
        world_seed: i32,
        ax: i32,
        az: i32,
        size: usize,
        kind: NodeKind,
        Ghost(g): Ghost<NodeGround>,
    )
        requires
            side_ok(size as int),
            g.size == size,
            g.world_seed == world_seed,
            inside(size as int, ax as int, az as int),
            old(self)@.well_formed(size as int),
        ensures
            final(self)@ == old(self)@.with_node(g, ax as int, az as int, kind),
            final(self)@.well_formed(size as int),
    {
        let idx: usize = index_of(ax, az, size);
        proof {
            lemma_side(size as int);
        }
        if self.landmass_id[idx] < 0 {
            self.landmass_id[idx] = 0;
        }
        let landmass: i32 = self.landmass_id[idx];
        let id: i32 = node_id(world_seed, ax, az, kind);
        self.nodes.push(GraphNode { id, kind, cell: idx as i32, ax, az, landmass });
        self.taken[idx] = true;
        assert(self@.landmass =~= old(self)@.landmass.update(
            idx as int,
            mass_of(old(self)@.landmass, idx as int),
        ));
        assert(self@ == old(self)@.with_node(g, ax as int, az as int, kind));
    }
}

/// The lowest and the highest population a site starts with.
pub open spec fn site_people(site: SettlementSite) -> (int, int) {
    match site {
        SettlementSite::RiverMouth => (10, 15),
        SettlementSite::Confluence => (8, 14),
        SettlementSite::NearRiver => (6, 12),
        SettlementSite::Inland => (4, 10),
    }
}

/// A draw of an integer from `lo` to `hi`, both included.
pub open spec fn from_to(lo: int, hi: int) -> Draw {
    Draw::Signed { lo: lo as i32, hi: (hi + 1) as i32 }
}

/// The population drawn for a new settlement and the draws made by then. Six in a
/// hundred inland sites are large, eight in a hundred river mouths small.
pub open spec fn settlement_people(seed: u64, past: Seq<Draw>, site: SettlementSite) -> (
    int,
    Seq<Draw>,
) {
    let first = from_to(site_people(site).0, site_people(site).1);
    let after = past.push(first);
    if site == SettlementSite::Inland || site == SettlementSite::RiverMouth {
        let chance = fraction_of(drawn(seed, after, Draw::Word));
        let odd = if site == SettlementSite::Inland {
            from_to(10, 15)
        } else {
            from_to(6, 9)
        };
        let then = after.push(Draw::Word);
        if chance < (if site == SettlementSite::Inland {
            1006633int
        } else {
            1342178
        }) {
            (drawn(seed, then, odd), then.push(odd))
        } else {
            (drawn(seed, past, first), then)
        }
    } else {
        (drawn(seed, past, first), after)
    }
}

fn settlement_pop_for_site(site: SettlementSite, rng: &mut ChaCha8Rng) -> (r: i32)
    ensures
        ({
            let out = settlement_people(rng_past(*old(rng)).0, rng_past(*old(rng)).1, site);
            r == out.0 && rng_past(*final(rng)).1 == out.1
        }),
        rng_past(*final(rng)).0 == rng_past(*old(rng)).0,
        1 <= r <= 15,
{
    let range: (i32, i32) = match site {
        SettlementSite::RiverMouth => (10, 15),
        SettlementSite::Confluence => (8, 14),
        SettlementSite::NearRiver => (6, 12),
        SettlementSite::Inland => (4, 10),
    };
    let mut pop: i32 = rng_range(rng, range.0, range.1 + 1);
    if site == SettlementSite::Inland {
        if rng_fraction(rng) < 1006633 {
            pop = rng_range(rng, 10, 16);
        }
    }
    if site == SettlementSite::RiverMouth {
        if rng_fraction(rng) < 1342178 {
            pop = rng_range(rng, 6, 10);
        }
    }
    pop
}

/// A settlement can be founded at `(ax, az)`.
pub open spec fn settlement_fits(
    g: NodeGround,
    st: NodeState,
    ax: int,
    az: int,
    spacing: int,
) -> bool {
    let c = cell_number(g.size, ax, az);
    &&& inside(g.size, ax, az)
    &&& !st.taken[c]
    &&& !wet(st.cells, c)
    &&& level_ground(g.size, st.cells, ax, az)
    &&& has_room(st.nodes, NodeKind::Settlement, ax, az, spacing)
}

/// The state after a settlement was tried for at `(ax, az)`.
pub open spec fn settled_at(
    g: NodeGround,
    st: NodeState,
    ax: int,
    az: int,
    site: SettlementSite,
    spacing: int,
) -> NodeState {
    if settlement_fits(g, st, ax, az, spacing) {
        let c = cell_number(g.size, ax, az);
        let people = settlement_people(st.seed, st.past, site);
        NodeState {
            cells: st.cells.update(c, with_population(st.cells[c], people.0)),
            past: people.1,
            ..st.with_node(g, ax, az, NodeKind::Settlement)
        }
    } else {
        st
    }
}

/// A cell with another population stays valid and keeps its ground.
pub proof fn lemma_repopulated_valid(cell: i32, pop: int)
    requires
        cell_valid(cell),
    ensures
        cell_valid(with_population(cell, pop)),
        cell_biome_id(with_population(cell, pop)) == cell_biome_id(cell),
        cell_elevation(with_population(cell, pop)) == cell_elevation(cell),
        cell_relief(with_population(cell, pop)) == cell_relief(cell),
        0 <= pop <= 15 ==> cell_pop(with_population(cell, pop)) == pop,
{
    lemma_cell_biome(cell);
    lemma_field_ranges(cell);
    law_pack_round_trip(
        cell_elevation(cell) as int,
        cell_humidity(cell) as int,
        cell_biome(cell),
        cell_relief(cell) as int,
        pop,
    );
}

impl NodeField {
    /// Founds a settlement at `(ax, az)` where one fits.
    fn try_add_settlement(
        &mut self,
        world_seed: i32,
        size: usize,
        ax: i32,
        az: i32,
        site: SettlementSite,
        spacing: i32,
        Ghost(g): Ghost<NodeGround>,
    ) -> (r: bool)
        requires
            side_ok(size as int),
            g.size == size,
            g.world_seed == world_seed,
            0 <= spacing <= 100000,
            old(self)@.well_formed(size as int),
        ensures
            r == settlement_fits(g, old(self)@, ax as int, az as int, spacing as int),
            final(self)@ == settled_at(g, old(self)@, ax as int, az as int, site, spacing as int),
            final(self)@.well_formed(size as int),
    {
        if !in_bounds(ax, az, size) {
            return false;
        }
        let idx: usize = index_of(ax, az, size);
        if self.taken[idx] {
            return false;
        }
        let cell: i32 = self.cells[idx];
        assert(cell_valid(self@.cells[idx as int]));
        if !is_land(biome(cell)) || !cell_is_settlement_flat(ax, az, size, self.cells.as_slice()) {
            return false;
        }
        if !leaves_room(&self.nodes, NodeKind::Settlement, ax, az, size, spacing) {
            return false;
        }
        let pop: i32 = settlement_pop_for_site(site, &mut self.rng);
        self.cells[idx] = repopulated(cell, pop);
        proof {
            lemma_repopulated_valid(cell, pop as int);
            assert forall|c: int| is_cell(size as int, c) implies cell_valid(
                #[trigger] self@.cells[c],
            ) by {
                assert(cell_valid(old(self)@.cells[c]));
            }
        }
        self.put_node(world_seed, ax, az, size, NodeKind::Settlement, Ghost(g));
        assert(self@ == settled_at(g, old(self)@, ax as int, az as int, site, spacing as int));
        true
    }
}

/// The kind of a road node at a cell, and the draws made by then. Eight in a
/// hundred nodes without a feature of the ground are reserved claims.
pub open spec fn road_node_kind(g: NodeGround, st: NodeState, ax: int, az: int) -> (
    NodeKind,
    Seq<Draw>,
) {
    let cell = st.cells[cell_number(g.size, ax, az)];
    if cell_biome_id(cell) == biome_number(Biome::Coast) {
        (NodeKind::CoastalGate, st.past)
    } else if lake_near(g.size, g.lake_id, ax, az) {
        (NodeKind::LakeShore, st.past)
    } else if cell_relief(cell) > 24 && cell_elevation(cell) > 140 {
        (NodeKind::Pass, st.past)
    } else if fraction_of(drawn(st.seed, st.past, Draw::Word)) < 1342178 {
        (NodeKind::ClaimReserved, st.past.push(Draw::Word))
    } else {
        (NodeKind::Landmark, st.past.push(Draw::Word))
    }
}

/// The state after a road node was tried for at `(ax, az)`.
pub open spec fn node_tried(
    g: NodeGround,
    st: NodeState,
    ax: int,
    az: int,
    spacing: int,
) -> NodeState {
    let c = cell_number(g.size, ax, az);
    if !inside(g.size, ax, az) || wet(st.cells, c) || st.taken[c] {
        st
    } else {
        let kind = road_node_kind(g, st, ax, az);
        let asked = NodeState { past: kind.1, ..st.with_mass(c) };
        if has_room(st.nodes, kind.0, ax, az, spacing) {
            asked.with_node(g, ax, az, kind.0)
        } else {
            asked
        }
    }
}

impl NodeField {
    /// Puts a road node at `(ax, az)` where the ground is dry and free.
    fn try_add_node(
        &mut self,
        world_seed: i32,
        size: usize,
        lake_id: &[i32],
        ax: i32,
        az: i32,
        spacing: i32,
        Ghost(g): Ghost<NodeGround>,
    )
        requires
            side_ok(size as int),
            g.size == size,
            g.world_seed == world_seed,
            g.lake_id == lake_id@,
            lake_id@.len() == size * size,
            0 <= spacing <= 100000,
            old(self)@.well_formed(size as int),
        ensures
            final(self)@ == node_tried(g, old(self)@, ax as int, az as int, spacing as int),
            final(self)@.well_formed(size as int),
    {
        if !in_bounds(ax, az, size) {
            return;
        }
        let idx: usize = index_of(ax, az, size);
        let cell: i32 = self.cells[idx];
        assert(cell_valid(self@.cells[idx as int]));
        let ground: Biome = biome(cell);
        if !is_land(ground) {
            return;
        }
        if self.taken[idx] {
            return;
        }
        if self.landmass_id[idx] < 0 {
            self.landmass_id[idx] = 0;
        }
        assert(self@ == old(self)@.with_mass(idx as int)) by {
            assert(self@.landmass =~= old(self)@.with_mass(idx as int).landmass);
        }
        let kind: NodeKind = if ground == Biome::Coast {
            NodeKind::CoastalGate
        } else if near_lake(ax, az, size, lake_id) {
            NodeKind::LakeShore
        } else if relief(cell) > 24 && elevation(cell) > 140 {
            NodeKind::Pass
        } else if rng_fraction(&mut self.rng) < 1342178 {
            NodeKind::ClaimReserved
        } else {
            NodeKind::Landmark
        };
        let ghost asked = self@;
        proof {
            assert((ground == Biome::Coast) == (cell_biome_id(cell) == biome_number(Biome::Coast)));
            let k = road_node_kind(g, old(self)@, ax as int, az as int);
            assert(k.0 == kind && k.1 == asked.past);
            assert(asked == NodeState { past: k.1, ..old(self)@.with_mass(idx as int) });
        }
        if leaves_room(&self.nodes, kind, ax, az, size, spacing) {
            self.put_node(world_seed, ax, az, size, kind, Ghost(g));
        }
    }
}

/// Ground a dungeon can be dug in.
pub open spec fn dungeon_biome(id: int) -> bool {
    id == biome_number(Biome::Plains) || id == biome_number(Biome::Forest) || id == biome_number(
        Biome::Arid,
    ) || id == biome_number(Biome::Alpine) || id == biome_number(Biome::Tundra)
}

/// A dungeon can be dug at `(ax, az)`.
pub open spec fn dungeon_fits(
    g: NodeGround,
    st: NodeState,
    ax: int,
    az: int,
    spacing: int,
) -> bool {
    let c = cell_number(g.size, ax, az);
    &&& inside(g.size, ax, az)
    &&& !st.taken[c]
    &&& dungeon_biome(cell_biome_id(st.cells[c]) as int)
    &&& !lake_near(g.size, g.lake_id, ax, az)
    &&& cell_relief(st.cells[c]) <= 32
    &&& cell_elevation(st.cells[c]) >= 30
    &&& level_ground(g.size, st.cells, ax, az)
    &&& cell_pop(st.cells[c]) < SETTLEMENT_MIN_POP
    &&& has_room(st.nodes, NodeKind::Dungeon, ax, az, spacing)
}

/// The state after a dungeon was tried for at `(ax, az)`.
pub open spec fn dungeon_tried(
    g: NodeGround,
    st: NodeState,
    ax: int,
    az: int,
    spacing: int,
) -> NodeState {
    if dungeon_fits(g, st, ax, az, spacing) {
        st.with_node(g, ax, az, NodeKind::Dungeon)
    } else {
        st
    }
}

impl NodeField {
    /// Digs a dungeon at `(ax, az)` where one fits.
    fn try_add_dungeon(
        &mut self,
        world_seed: i32,
        size: usize,
        lake_id: &[i32],
        ax: i32,
        az: i32,
        spacing: i32,
        Ghost(g): Ghost<NodeGround>,
    )
        requires
            side_ok(size as int),
            g.size == size,
            g.world_seed == world_seed,
            g.lake_id == lake_id@,
            lake_id@.len() == size * size,
            0 <= spacing <= 100000,
            old(self)@.well_formed(size as int),
        ensures
            final(self)@ == dungeon_tried(g, old(self)@, ax as int, az as int, spacing as int),
            final(self)@.well_formed(size as int),
    {
        if !in_bounds(ax, az, size) {
            return;
        }
        let idx: usize = index_of(ax, az, size);
        if self.taken[idx] {
            return;
        }
        let cell: i32 = self.cells[idx];
        assert(cell_valid(self@.cells[idx as int]));
        let ground: Biome = biome(cell);
        let diggable: bool = match ground {
            Biome::Plains | Biome::Forest | Biome::Arid | Biome::Alpine | Biome::Tundra => true,
            _ => false,
        };
        assert(diggable == dungeon_biome(cell_biome_id(cell) as int));
        if !diggable || near_lake(ax, az, size, lake_id) || relief(cell) > 32 || elevation(cell)
            < 30 {
            return;
        }
        if !cell_is_settlement_flat(ax, az, size, self.cells.as_slice()) {
            return;
        }
        if population(cell) >= SETTLEMENT_MIN_POP {
            return;
        }
        if leaves_room(&self.nodes, NodeKind::Dungeon, ax, az, size, spacing) {
            self.put_node(world_seed, ax, az, size, NodeKind::Dungeon, Ghost(g));
        }
    }
}

/// The site of each tier.
pub open spec fn tier_site(tier: int) -> SettlementSite {
    if tier == 0 {
        SettlementSite::RiverMouth
    } else if tier == 1 {
        SettlementSite::Confluence
    } else if tier == 2 {
        SettlementSite::NearRiver
    } else {
        SettlementSite::Inland
    }
}

pub open spec fn site_tier(site: SettlementSite) -> int {
    match site {
        SettlementSite::RiverMouth => 0,
        SettlementSite::Confluence => 1,
        SettlementSite::NearRiver => 2,
        SettlementSite::Inland => 3,
    }
}

pub fn site_from_tier(tier: u8) -> (r: SettlementSite)
    ensures
        r == tier_site(tier as int),
{
    match tier {
        0 => SettlementSite::RiverMouth,
        1 => SettlementSite::Confluence,
        2 => SettlementSite::NearRiver,
        _ => SettlementSite::Inland,
    }
}

pub fn site_bucket_index(site: SettlementSite) -> (r: usize)
    ensures
        r == site_tier(site),
        r < 4,
        tier_site(r as int) == site,
{
    match site {
        SettlementSite::RiverMouth => 0,
        SettlementSite::Confluence => 1,
        SettlementSite::NearRiver => 2,
        SettlementSite::Inland => 3,
    }
}

/// A cell that offers a site of the given tier: level land, not a wetland by a
/// lake.
pub open spec fn offers(g: NodeGround, cells: Seq<i32>, c: int, tier: int) -> bool {
    let ax = cell_x(g.size, c);
    let az = cell_z(g.size, c);
    &&& !wet(cells, c)
    &&& level_ground(g.size, cells, ax, az)
    &&& !(lake_near(g.size, g.lake_id, ax, az) && cell_biome_id(cells[c]) == biome_number(
        Biome::Wetland,
    ))
    &&& site_tier(site_of(g.size, g.rivers, g.mouth, c)) == tier
}

/// The first `n` cells that offer a site of the given tier, in order.
pub open spec fn offers_upto(g: NodeGround, cells: Seq<i32>, tier: int, n: nat) -> Seq<i32>
    decreases n,
{
    if n == 0 {
        Seq::empty()
    } else {
        let before = offers_upto(g, cells, tier, (n - 1) as nat);
        if offers(g, cells, n - 1, tier) {
            before.push((n - 1) as i32)
        } else {
            before
        }
    }
}

/// The cells that offer a site of the given tier, in order.
pub open spec fn offers_of(g: NodeGround, cells: Seq<i32>, tier: int) -> Seq<i32> {
    offers_upto(g, cells, tier, (g.size * g.size) as nat)
}

proof fn lemma_offers_are_cells(g: NodeGround, cells: Seq<i32>, tier: int, n: nat)
    requires
        side_ok(g.size),
        n <= g.size * g.size,
    ensures
        forall|i: int|
            0 <= i < offers_upto(g, cells, tier, n).len() ==> is_cell(
                g.size,
                #[trigger] offers_upto(g, cells, tier, n)[i] as int,
            ),
    decreases n,
{
    lemma_side(g.size);
    if n > 0 {
        lemma_offers_are_cells(g, cells, tier, (n - 1) as nat);
        let before = offers_upto(g, cells, tier, (n - 1) as nat);
        let all = offers_upto(g, cells, tier, n);
        assert forall|i: int| 0 <= i < all.len() implies is_cell(g.size, #[trigger] all[i] as int) by {
            if i < before.len() {
                assert(is_cell(g.size, before[i] as int));
                assert(all[i] == before[i]);
            }
        }
    }
}

/// The cells that offer a site, by tier.
pub open spec fn all_offers(g: NodeGround, cells: Seq<i32>) -> Seq<Seq<i32>> {
    Seq::new(4, |t: int| offers_of(g, cells, t))
}

/// Sorts the cells that offer a site by tier.
#[verifier::loop_isolation(false)]
fn site_buckets(
    size: usize,
    cells: &[i32],
    lake_id: &[i32],
    river_links: &FxHashMap<i32, Vec<Link>>,
    mouth_distance: &[i32],
    Ghost(g): Ghost<NodeGround>,
) -> (r: Vec<Vec<i32>>)
    requires
        side_ok(size as int),
        g.size == size,
        g.lake_id == lake_id@,
        g.rivers == river_links@.dom(),
        g.mouth == mouth_distance@,
        cells@.len() == size * size,
        lake_id@.len() == size * size,
        mouth_distance@.len() == size * size,
        forall|c: int| is_cell(size as int, c) ==> cell_valid(#[trigger] cells@[c]),
    ensures
        r@.len() == 4,
        forall|t: int| 0 <= t < 4 ==> (#[trigger] r@[t])@ == offers_of(g, cells@, t),
{
    let ghost n = size as int;
    proof {
        lemma_side(n);
    }
    let count: usize = size * size;
    let mut r: Vec<Vec<i32>> = Vec::new();
    r.push(Vec::new());
    r.push(Vec::new());
    r.push(Vec::new());
    r.push(Vec::new());
    let mut i: usize = 0;
    while i < count
        invariant
            i <= count,
            r@.len() == 4,
            forall|t: int| 0 <= t < 4 ==> (#[trigger] r@[t])@ == offers_upto(g, cells@, t, i as nat),
        decreases count - i,
    {
        proof {
            lemma_cell_coords(n, i as int);
            assert(is_cell(n, i as int) && cell_valid(cells@[i as int]));
        }
        let ghost before = r@;
        let ax: i32 = (i % size) as i32;
        let az: i32 = (i / size) as i32;
        let ground: Biome = biome(cells[i]);
        let site: SettlementSite = classify_settlement_site(
            ax,
            az,
            size,
            river_links,
            mouth_distance,
        );
        let open: bool = is_land(ground) && cell_is_settlement_flat(ax, az, size, cells) && !(
        near_lake(ax, az, size, lake_id) && ground == Biome::Wetland);
        let ghost tier = site_tier(site);
        if open {
            let k: usize = site_bucket_index(site);
            r[k].push(i as i32);
        }
        proof {
            assert(cell_number(n, ax as int, az as int) == i);
            assert((ground == Biome::Wetland) == (cell_biome_id(cells@[i as int]) == biome_number(
                Biome::Wetland,
            )));
            assert forall|t: int| 0 <= t < 4 implies (#[trigger] r@[t])@ == offers_upto(
                g,
                cells@,
                t,
                (i + 1) as nat,
            ) by {
                assert(before[t]@ == offers_upto(g, cells@, t, i as nat));
                assert(offers(g, cells@, i as int, t) == (open && tier == t));
                if open && tier == t {
                    assert(r@[t]@ =~= before[t]@.push(i as i32));
                }
            }
        }
        i += 1;
    }
    r
}

/// The weight of the tiers below `n` that a cell offers a site of, each sum rounded.
pub open spec fn weight_upto(b: Seq<Seq<i32>>, n: nat) -> int
    decreases n,
{
    if n == 0 {
        0
    } else if b[n - 1].len() == 0 {
        weight_upto(b, (n - 1) as nat)
    } else {
        single(weight_upto(b, (n - 1) as nat) + site_weight(tier_site(n - 1)))
    }
}

/// The first tier on offer, from `tier` on, whose weight brings the cursor to nothing; the
/// cursor is in parts of 2^48 and each difference is rounded.
pub open spec fn tier_reached(b: Seq<Seq<i32>>, cursor: int, tier: int) -> Option<int>
    decreases 4 - tier,
{
    if tier >= 4 {
        None
    } else if b[tier].len() == 0 {
        tier_reached(b, cursor, tier + 1)
    } else {
        let left = single(cursor - site_weight(tier_site(tier)) * 0x100_0000);
        if left <= 0 {
            Some(tier)
        } else {
            tier_reached(b, left, tier + 1)
        }
    }
}

/// The tier that a drawn fraction of the whole weight falls on.
pub open spec fn tier_drawn(b: Seq<Seq<i32>>, fraction: int) -> Option<int> {
    tier_reached(b, single(fraction * weight_upto(b, 4)), 0)
}

/// The lists of the buckets.
pub open spec fn bucket_views(b: Seq<Vec<i32>>) -> Seq<Seq<i32>> {
    Seq::new(b.len(), |t: int| b[t]@)
}

/// Draws a tier by weight among those on offer; none where nothing is.
fn pick_settlement_site(rng: &mut ChaCha8Rng, buckets: &Vec<Vec<i32>>) -> (r: Option<
    SettlementSite,
>)
    requires
        buckets@.len() == 4,
    ensures
        rng_past(*final(rng)).0 == rng_past(*old(rng)).0,
        ({
            let b = bucket_views(buckets@);
            if weight_upto(b, 4) == 0 {
                r is None && rng_past(*final(rng)).1 == rng_past(*old(rng)).1
            } else {
                &&& rng_past(*final(rng)).1 == rng_past(*old(rng)).1.push(Draw::Word)
                &&& match tier_drawn(
                    b,
                    fraction_of(drawn(rng_past(*old(rng)).0, rng_past(*old(rng)).1, Draw::Word)),
                ) {
                    Some(t) => r == Some(tier_site(t)) && 0 <= t < 4 && b[t].len() > 0,
                    None => r is None,
                }
            }
        }),
{
    let ghost b = bucket_views(buckets@);
    let mut total: i64 = 0;
    let mut t: usize = 0;
    while t < 4
        invariant
            t <= 4,
            buckets@.len() == 4,
            b == bucket_views(buckets@),
            total == weight_upto(b, t as nat),
            0 <= total <= 70_000_000 * t,
        decreases 4 - t,
    {
        assert(b[t as int] == buckets@[t as int]@);
        if buckets[t].len() > 0 {
            let sum: i64 = total + site_from_tier(t as u8).weight() as i64;
            proof {
                law_rounding_stays_close(sum as int, SINGLE as int);
            }
            total = round_single(sum);
        }
        t += 1;
    }
    if total == 0 {
        return None;
    }
    let fraction: i64 = rng_fraction(rng) as i64;
    let ghost whole = fraction * total;
    proof {
        assert(0 <= whole <= 0x100_0000 * 280_000_000) by (nonlinear_arith)
            requires
                0 <= fraction < 0x100_0000,
                0 <= total <= 280_000_000,
                whole == fraction * total,
        ;
        law_rounding_stays_close(whole, SINGLE as int);
    }
    let mut cursor: i64 = round_single(fraction * total);
    let mut k: usize = 0;
    while k < 4
        invariant
            k <= 4,
            buckets@.len() == 4,
            b == bucket_views(buckets@),
            weight_upto(b, 4) != 0,
            0 <= cursor <= 0x20_0000_0000_0000,
            rng_past(*rng).0 == rng_past(*old(rng)).0,
            rng_past(*rng).1 == rng_past(*old(rng)).1.push(Draw::Word),
            fraction == fraction_of(
                drawn(rng_past(*old(rng)).0, rng_past(*old(rng)).1, Draw::Word),
            ),
            tier_drawn(b, fraction as int) == tier_reached(b, cursor as int, k as int),
        decreases 4 - k,
    {
        assert(b[k as int] == buckets@[k as int]@);
        if buckets[k].len() > 0 {
            let site: SettlementSite = site_from_tier(k as u8);
            let rest: i64 = cursor - site.weight() as i64 * 0x100_0000;
            proof {
                law_rounding_stays_close(rest as int, SINGLE as int);
            }
            cursor = round_single(rest);
            if cursor <= 0 {
                return Some(site);
            }
        }
        k += 1;
    }
    None
}

/// The state after up to `left` more tries to found settlements, `placed` of
/// `target` standing.
pub open spec fn settle_run(
    g: NodeGround,
    b: Seq<Seq<i32>>,
    spacing: int,
    target: int,
    st: NodeState,
    placed: int,
    left: nat,
) -> NodeState
    decreases left,
{
    let picked = tier_drawn(b, fraction_of(drawn(st.seed, st.past, Draw::Word)));
    if left == 0 || placed >= target || weight_upto(b, 4) == 0 {
        st
    } else if picked is None {
        NodeState { past: st.past.push(Draw::Word), ..st }
    } else {
        let t = picked->0;
        let ask = Draw::Index { hi: b[t].len() as usize };
        let pick = b[t][drawn(st.seed, st.past.push(Draw::Word), ask)];
        let asked = NodeState { past: st.past.push(Draw::Word).push(ask), ..st };
        let ax = cell_x(g.size, pick as int);
        let az = cell_z(g.size, pick as int);
        settle_run(
            g,
            b,
            spacing,
            target,
            settled_at(g, asked, ax, az, tier_site(t), spacing),
            placed + if settlement_fits(g, asked, ax, az, spacing) {
                1int
            } else {
                0
            },
            (left - 1) as nat,
        )
    }
}

impl NodeField {
    /// Founds up to `target` settlements where the rivers draw them.
    fn seed_settlement_nodes(
        &mut self,
        world_seed: i32,
        size: usize,
        lake_id: &[i32],
        river_links: &FxHashMap<i32, Vec<Link>>,
        mouth_distance: &[i32],
        target: usize,
        spacing: i32,
        Ghost(g): Ghost<NodeGround>,
    )
        requires
            side_ok(size as int),
            g.size == size,
            g.world_seed == world_seed,
            g.lake_id == lake_id@,
            g.rivers == river_links@.dom(),
            g.mouth == mouth_distance@,
            lake_id@.len() == size * size,
            mouth_distance@.len() == size * size,
            0 <= spacing <= 100000,
            target <= 1000,
            old(self)@.well_formed(size as int),
        ensures
            final(self)@ == settle_run(
                g,
                all_offers(g, old(self)@.cells),
                spacing as int,
                target as int,
                old(self)@,
                0,
                (target * 500) as nat,
            ),
            final(self)@.well_formed(size as int),
    {
        let buckets: Vec<Vec<i32>> = site_buckets(
            size,
            self.cells.as_slice(),
            lake_id,
            river_links,
            mouth_distance,
            Ghost(g),
        );
        let ghost b = all_offers(g, old(self)@.cells);
        proof {
            assert(bucket_views(buckets@) =~= b);
            assert forall|t: int, i: int|
                0 <= t < 4 && 0 <= i < b[t].len() implies is_cell(
                size as int,
                #[trigger] b[t][i] as int,
            ) by {
                lemma_offers_are_cells(g, old(self)@.cells, t, (g.size * g.size) as nat);
            }
            lemma_side(size as int);
        }
        let mut left: usize = target * 500;
        let mut placed: usize = 0;
        while left > 0
            invariant
                left <= target * 500,
                placed + left <= target * 500,
                target <= 1000,
                side_ok(size as int),
                g.size == size,
                g.world_seed == world_seed,
                0 <= spacing <= 100000,
                buckets@.len() == 4,
                bucket_views(buckets@) == b,
                b == all_offers(g, old(self)@.cells),
                forall|t: int, i: int|
                    0 <= t < 4 && 0 <= i < b[t].len() ==> is_cell(
                        size as int,
                        #[trigger] b[t][i] as int,
                    ),
                self@.well_formed(size as int),
                settle_run(
                    g,
                    b,
                    spacing as int,
                    target as int,
                    self@,
                    placed as int,
                    left as nat,
                ) == settle_run(
                    g,
                    b,
                    spacing as int,
                    target as int,
                    old(self)@,
                    0,
                    (target * 500) as nat,
                ),
            decreases left,
        {
            if placed >= target {
                return;
            }
            let ghost start = self@;
            let site: SettlementSite = match pick_settlement_site(&mut self.rng, &buckets) {
                Some(site) => site,
                None => {
                    return;
                },
            };
            let k: usize = site_bucket_index(site);
            assert(b[k as int] == buckets@[k as int]@);
            let at: usize = rng_index(&mut self.rng, buckets[k].len());
            let pick: i32 = buckets[k][at];
            proof {
                assert(b[k as int][at as int] == pick);
                lemma_cell_coords(size as int, pick as int);
            }
            let ax: i32 = pick % size as i32;
            let az: i32 = pick / size as i32;
            if self.try_add_settlement(world_seed, size, ax, az, site, spacing, Ghost(g)) {
                placed += 1;
            }
            left -= 1;
        }
    }
}

/// The state after up to `left` road nodes were tried for at drawn places between
/// `lo` and `hi`, until `target` nodes stand.
pub open spec fn roam_run(
    g: NodeGround,
    lo: i32,
    hi: i32,
    spacing: int,
    target: int,
    st: NodeState,
    left: nat,
) -> NodeState
    decreases left,
{
    if left == 0 || st.nodes.len() >= target {
        st
    } else {
        let ask = Draw::Signed { lo, hi };
        let ax = drawn(st.seed, st.past, ask);
        let az = drawn(st.seed, st.past.push(ask), ask);
        let asked = NodeState { past: st.past.push(ask).push(ask), ..st };
        roam_run(
            g,
            lo,
            hi,
            spacing,
            target,
            node_tried(g, asked, ax, az, spacing),
            (left - 1) as nat,
        )
    }
}

/// The state after road nodes were tried for down one column of a raster.
pub open spec fn column_run(
    g: NodeGround,
    ax: int,
    az: int,
    stride: int,
    end: int,
    spacing: int,
    target: int,
    st: NodeState,
) -> NodeState
    decreases end + stride - az,
{
    if stride > 0 && az < end && st.nodes.len() < target {
        column_run(
            g,
            ax,
            az + stride,
            stride,
            end,
            spacing,
            target,
            node_tried(g, st, ax, az, spacing),
        )
    } else {
        st
    }
}

/// The state after road nodes were tried for over a raster, column by column.
pub open spec fn raster_run(
    g: NodeGround,
    ax: int,
    start: int,
    stride: int,
    end: int,
    spacing: int,
    target: int,
    st: NodeState,
) -> NodeState
    decreases end + stride - ax,
{
    if stride > 0 && ax < end && st.nodes.len() < target {
        raster_run(
            g,
            ax + stride,
            start,
            stride,
            end,
            spacing,
            target,
            column_run(g, ax, start, stride, end, spacing, target, st),
        )
    } else {
        st
    }
}

/// The state after road nodes were tried for on every cell from `c` on, until
/// `want` nodes stand.
pub open spec fn fill_run(
    g: NodeGround,
    c: int,
    spacing: int,
    want: int,
    st: NodeState,
) -> NodeState
    decreases g.size * g.size - c,
{
    if c < g.size * g.size && st.nodes.len() < want {
        fill_run(
            g,
            c + 1,
            spacing,
            want,
            node_tried(g, st, cell_x(g.size, c), cell_z(g.size, c), spacing),
        )
    } else {
        st
    }
}

/// How many of the first `n` nodes are dungeons.
pub open spec fn dungeons_upto(nodes: Seq<GraphNode>, n: nat) -> int
    decreases n,
{
    if n == 0 {
        0
    } else {
        dungeons_upto(nodes, (n - 1) as nat) + if nodes[n - 1].kind == NodeKind::Dungeon {
            1int
        } else {
            0
        }
    }
}

fn dungeon_count(nodes: &Vec<GraphNode>) -> (r: usize)
    ensures
        r == dungeons_upto(nodes@, nodes@.len()),
{
    let mut r: usize = 0;
    let mut i: usize = 0;
    while i < nodes.len()
        invariant
            i <= nodes@.len(),
            r <= i,
            r == dungeons_upto(nodes@, i as nat),
        decreases nodes@.len() - i,
    {
        if nodes[i].kind == NodeKind::Dungeon {
            r += 1;
        }
        i += 1;
    }
    r
}

/// The state after up to `left` dungeons were tried for at drawn places.
pub open spec fn dig_run(
    g: NodeGround,
    lo: i32,
    hi: i32,
    spacing: int,
    target: int,
    st: NodeState,
    left: nat,
) -> NodeState
    decreases left,
{
    if left == 0 || dungeons_upto(st.nodes, st.nodes.len()) >= target {
        st
    } else {
        let ask = Draw::Signed { lo, hi };
        let ax = drawn(st.seed, st.past, ask);
        let az = drawn(st.seed, st.past.push(ask), ask);
        let asked = NodeState { past: st.past.push(ask).push(ask), ..st };
        dig_run(
            g,
            lo,
            hi,
            spacing,
            target,
            dungeon_tried(g, asked, ax, az, spacing),
            (left - 1) as nat,
        )
    }
}

pub open spec fn max_of(a: int, b: int) -> int {
    if a > b {
        a
    } else {
        b
    }
}

pub open spec fn min_of(a: int, b: int) -> int {
    if a < b {
        a
    } else {
        b
    }
}

fn max_i(a: i32, b: i32) -> (r: i32)
    ensures
        r == max_of(a as int, b as int),
{
    if a > b {
        a
    } else {
        b
    }
}

fn min_i(a: i32, b: i32) -> (r: i32)
    ensures
        r == min_of(a as int, b as int),
{
    if a < b {
        a
    } else {
        b
    }
}

/// How many nodes a continent of the given side aims for.
pub open spec fn node_goal(size: int) -> int {
    clamped(max_of(72 * size / 1000, size / 10), 12, 96)
}

/// How many settlements: a hundred to the thousand cells of a side.
pub open spec fn settlement_goal(size: int) -> int {
    clamped(100 * size / 1000, 4, 220)
}

/// How many dungeons: fifty to the thousand cells of a side.
pub open spec fn dungeon_goal(size: int) -> int {
    clamped(50 * size / 1000, 2, 120)
}

/// The room nodes leave each other.
pub open spec fn node_spacing(size: int) -> int {
    max_of(3, size / 36)
}

/// The room dungeons ask.
pub open spec fn dungeon_spacing(size: int) -> int {
    max_of(min_of(max_of(node_spacing(size), 4), size / 6), 3)
}

/// The strip along the sides where no road node is drawn.
pub open spec fn node_collar(size: int) -> int {
    if collar_of(size) + 2 >= size / 2 {
        max_of(2, size / 8)
    } else {
        collar_of(size) + 2
    }
}

/// The strip along the sides where no dungeon is drawn.
pub open spec fn dungeon_collar(size: int) -> int {
    max_of(min_of(collar_of(size) + 2, size / 4), 2)
}

pub fn settlement_target(size: usize) -> (r: usize)
    requires
        side_ok(size as int),
    ensures
        r == settlement_goal(size as int),
{
    clamp_i(100 * size as i32 / 1000, 4, 220) as usize
}

pub fn dungeon_target(size: usize) -> (r: usize)
    requires
        side_ok(size as int),
    ensures
        r == dungeon_goal(size as int),
{
    clamp_i(50 * size as i32 / 1000, 2, 120) as usize
}

impl NodeField {
    /// Tries for road nodes at drawn places.
    fn roam(
        &mut self,
        world_seed: i32,
        size: usize,
        lake_id: &[i32],
        collar: i32,
        spacing: i32,
        target: usize,
        Ghost(g): Ghost<NodeGround>,
    )
        requires
            side_ok(size as int),
            g.size == size,
            g.world_seed == world_seed,
            g.lake_id == lake_id@,
            lake_id@.len() == size * size,
            0 <= spacing <= 100000,
            0 <= collar < size - collar,
            target <= 1000,
            old(self)@.well_formed(size as int),
        ensures
            final(self)@ == roam_run(
                g,
                collar,
                (size - collar) as i32,
                spacing as int,
                target as int,
                old(self)@,
                (target * 120) as nat,
            ),
            final(self)@.well_formed(size as int),
    {
        let hi: i32 = size as i32 - collar;
        let mut left: usize = target * 120;
        while left > 0
            invariant
                left <= target * 120,
                side_ok(size as int),
                g.size == size,
                g.world_seed == world_seed,
                g.lake_id == lake_id@,
                lake_id@.len() == size * size,
                0 <= spacing <= 100000,
                0 <= collar < hi,
                self@.well_formed(size as int),
                roam_run(g, collar, hi, spacing as int, target as int, self@, left as nat)
                    == roam_run(
                    g,
                    collar,
                    hi,
                    spacing as int,
                    target as int,
                    old(self)@,
                    (target * 120) as nat,
                ),
                hi == size - collar,
            decreases left,
        {
            if self.nodes.len() >= target {
                return;
            }
            let ax: i32 = rng_range(&mut self.rng, collar, hi);
            let az: i32 = rng_range(&mut self.rng, collar, hi);
            self.try_add_node(world_seed, size, lake_id, ax, az, spacing, Ghost(g));
            left -= 1;
        }
    }

    /// Tries for road nodes down one column of a raster.
    fn sweep_column(
        &mut self,
        world_seed: i32,
        size: usize,
        lake_id: &[i32],
        ax: i32,
        start: i32,
        stride: i32,
        end: i32,
        spacing: i32,
        target: usize,
        Ghost(g): Ghost<NodeGround>,
    )
        requires
            side_ok(size as int),
            g.size == size,
            g.world_seed == world_seed,
            g.lake_id == lake_id@,
            lake_id@.len() == size * size,
            0 <= spacing <= 100000,
            0 < stride <= 100000,
            0 <= start <= 100000,
            end <= size,
            old(self)@.well_formed(size as int),
        ensures
            final(self)@ == column_run(
                g,
                ax as int,
                start as int,
                stride as int,
                end as int,
                spacing as int,
                target as int,
                old(self)@,
            ),
            final(self)@.well_formed(size as int),
    {
        let mut az: i32 = start;
        while az < end && self.nodes.len() < target
            invariant
                side_ok(size as int),
                g.size == size,
                g.world_seed == world_seed,
                g.lake_id == lake_id@,
                lake_id@.len() == size * size,
                0 <= spacing <= 100000,
                0 < stride <= 100000,
                0 <= az <= 200000,
                end <= size,
                self@.well_formed(size as int),
                column_run(
                    g,
                    ax as int,
                    az as int,
                    stride as int,
                    end as int,
                    spacing as int,
                    target as int,
                    self@,
                ) == column_run(
                    g,
                    ax as int,
                    start as int,
                    stride as int,
                    end as int,
                    spacing as int,
                    target as int,
                    old(self)@,
                ),
            decreases end + stride - az,
        {
            self.try_add_node(world_seed, size, lake_id, ax, az, spacing, Ghost(g));
            az += stride;
        }
    }

    /// Tries for road nodes over a raster.
    fn sweep(
        &mut self,
        world_seed: i32,
        size: usize,
        lake_id: &[i32],
        start: i32,
        stride: i32,
        end: i32,
        spacing: i32,
        target: usize,
        Ghost(g): Ghost<NodeGround>,
    )
        requires
            side_ok(size as int),
            g.size == size,
            g.world_seed == world_seed,
            g.lake_id == lake_id@,
            lake_id@.len() == size * size,
            0 <= spacing <= 100000,
            0 < stride <= 100000,
            0 <= start <= 100000,
            end <= size,
            old(self)@.well_formed(size as int),
        ensures
            final(self)@ == raster_run(
                g,
                start as int,
                start as int,
                stride as int,
                end as int,
                spacing as int,
                target as int,
                old(self)@,
            ),
            final(self)@.well_formed(size as int),
    {
        let mut ax: i32 = start;
        while ax < end && self.nodes.len() < target
            invariant
                side_ok(size as int),
                g.size == size,
                g.world_seed == world_seed,
                g.lake_id == lake_id@,
                lake_id@.len() == size * size,
                0 <= spacing <= 100000,
                0 < stride <= 100000,
                0 <= start <= 100000,
                0 <= ax <= 200000,
                end <= size,
                self@.well_formed(size as int),
                raster_run(
                    g,
                    ax as int,
                    start as int,
                    stride as int,
                    end as int,
                    spacing as int,
                    target as int,
                    self@,
                ) == raster_run(
                    g,
                    start as int,
                    start as int,
                    stride as int,
                    end as int,
                    spacing as int,
                    target as int,
                    old(self)@,
                ),
            decreases end + stride - ax,
        {
            self.sweep_column(
                world_seed,
                size,
                lake_id,
                ax,
                start,
                stride,
                end,
                spacing,
                target,
                Ghost(g),
            );
            ax += stride;
        }
    }

    /// Tries for road nodes on every cell in turn.
    fn fill(
        &mut self,
        world_seed: i32,
        size: usize,
        lake_id: &[i32],
        spacing: i32,
        want: usize,
        Ghost(g): Ghost<NodeGround>,
    )
        requires
            side_ok(size as int),
            g.size == size,
            g.world_seed == world_seed,
            g.lake_id == lake_id@,
            lake_id@.len() == size * size,
            0 <= spacing <= 100000,
            old(self)@.well_formed(size as int),
        ensures
            final(self)@ == fill_run(g, 0, spacing as int, want as int, old(self)@),
            final(self)@.well_formed(size as int),
    {
        proof {
            lemma_side(size as int);
        }
        let count: usize = size * size;
        let mut c: usize = 0;
        while c < count && self.nodes.len() < want
            invariant
                c <= count,
                count == size * size,
                side_ok(size as int),
                g.size == size,
                g.world_seed == world_seed,
                g.lake_id == lake_id@,
                lake_id@.len() == size * size,
                0 <= spacing <= 100000,
                self@.well_formed(size as int),
                fill_run(g, c as int, spacing as int, want as int, self@) == fill_run(
                    g,
                    0,
                    spacing as int,
                    want as int,
                    old(self)@,
                ),
            decreases count - c,
        {
            proof {
                lemma_cell_coords(size as int, c as int);
            }
            self.try_add_node(
                world_seed,
                size,
                lake_id,
                (c % size) as i32,
                (c / size) as i32,
                spacing,
                Ghost(g),
            );
            c += 1;
        }
    }

    /// Digs dungeons at drawn places.
    fn seed_dungeon_nodes(
        &mut self,
        world_seed: i32,
        size: usize,
        lake_id: &[i32],
        spacing: i32,
        Ghost(g): Ghost<NodeGround>,
    )
        requires
            side_ok(size as int),
            size >= 5,
            g.size == size,
            g.world_seed == world_seed,
            g.lake_id == lake_id@,
            lake_id@.len() == size * size,
            spacing == node_spacing(size as int),
            old(self)@.well_formed(size as int),
        ensures
            final(self)@ == dug(g, old(self)@),
            final(self)@.well_formed(size as int),
    {
        self.rng = rng_seeded(layer_seed(world_seed, "atlas_dungeons") as u64);
        let ghost start = self@;
        let target: usize = dungeon_target(size);
        let gap: i32 = max_i(min_i(max_i(spacing, 4), size as i32 / 6), 3);
        let collar: i32 = max_i(min_i(collar_cells(size) + 2, size as i32 / 4), 2);
        let hi: i32 = size as i32 - collar;
        proof {
            assert(rng_past(self.rng).1 =~= Seq::<Draw>::empty());
            assert(start == NodeState {
                seed: layer_seed_of(world_seed, "atlas_dungeons"@) as u64,
                past: Seq::<Draw>::empty(),
                ..old(self)@
            });
        }
        let mut left: usize = target * 400;
        while left > 0
            invariant
                left <= target * 400,
                side_ok(size as int),
                g.size == size,
                g.world_seed == world_seed,
                g.lake_id == lake_id@,
                lake_id@.len() == size * size,
                0 <= gap <= 100000,
                0 <= collar < hi,
                self@.well_formed(size as int),
                dig_run(g, collar, hi, gap as int, target as int, self@, left as nat) == dig_run(
                    g,
                    collar,
                    hi,
                    gap as int,
                    target as int,
                    start,
                    (target * 400) as nat,
                ),
                dug(g, old(self)@) == dig_run(
                    g,
                    collar,
                    hi,
                    gap as int,
                    target as int,
                    start,
                    (target * 400) as nat,
                ),
            decreases left,
        {
            if dungeon_count(&self.nodes) >= target {
                return;
            }
            let ax: i32 = rng_range(&mut self.rng, collar, hi);
            let az: i32 = rng_range(&mut self.rng, collar, hi);
            self.try_add_dungeon(world_seed, size, lake_id, ax, az, gap, Ghost(g));
            left -= 1;
        }
    }
}

/// The state after dungeons were dug.
pub open spec fn dug(g: NodeGround, st: NodeState) -> NodeState {
    dig_run(
        g,
        dungeon_collar(g.size) as i32,
        (g.size - dungeon_collar(g.size)) as i32,
        dungeon_spacing(g.size),
        dungeon_goal(g.size),
        NodeState {
            seed: layer_seed_of(g.world_seed, "atlas_dungeons"@) as u64,
            past: Seq::empty(),
            ..st
        },
        (dungeon_goal(g.size) * 400) as nat,
    )
}

/// The state after settlements were founded.
pub open spec fn founded(g: NodeGround, st: NodeState) -> NodeState {
    settle_run(
        g,
        all_offers(g, st.cells),
        node_spacing(g.size),
        settlement_goal(g.size),
        st,
        0,
        (settlement_goal(g.size) * 500) as nat,
    )
}

/// The state after road nodes were put at drawn places and, where those fell
/// short, over a raster, and at last on any dry cell while fewer than two stand.
pub open spec fn connected(g: NodeGround, st: NodeState) -> NodeState {
    let goal = node_goal(g.size);
    let collar = node_collar(g.size);
    let gap = node_spacing(g.size);
    let roamed = roam_run(
        g,
        collar as i32,
        (g.size - collar) as i32,
        gap,
        goal,
        st,
        (goal * 120) as nat,
    );
    let stride = max_of(gap, 4);
    let swept = if roamed.nodes.len() < goal {
        raster_run(
            g,
            collar + stride / 2,
            collar + stride / 2,
            stride,
            g.size - collar,
            gap,
            goal,
            roamed,
        )
    } else {
        roamed
    };
    if swept.nodes.len() < 2 {
        fill_run(g, 0, max_of(gap / 2, 2), max_of(goal, 4), swept)
    } else {
        swept
    }
}

/// The state after all nodes were seeded.
pub open spec fn nodes_seeded(g: NodeGround, st: NodeState) -> NodeState {
    dug(g, connected(g, founded(g, st)))
}

/// The state nodes are seeded from.
pub open spec fn before_seeding(
    g: NodeGround,
    cells: Seq<i32>,
    landmass: Seq<i32>,
    nodes: Seq<GraphNode>,
) -> NodeState {
    NodeState {
        cells,
        landmass,
        taken: Seq::new((g.size * g.size) as nat, |c: int| false),
        nodes,
        seed: layer_seed_of(g.world_seed, "atlas_nodes"@) as u64,
        past: Seq::empty(),
    }
}

/// Seeds settlements, road nodes and dungeons.
pub fn seed_nodes(
    world_seed: i32,
    size: usize,
    cells: &mut Vec<i32>,
    landmass_id: &mut Vec<i32>,
    lake_id: &[i32],
    river_links: &FxHashMap<i32, Vec<Link>>,
    mouth_distance: &[i32],
    nodes: &mut Vec<GraphNode>,
)
    requires
        side_ok(size as int),
        size >= 5,
        old(cells)@.len() == size * size,
        old(landmass_id)@.len() == size * size,
        lake_id@.len() == size * size,
        mouth_distance@.len() == size * size,
        forall|c: int| is_cell(size as int, c) ==> cell_valid(#[trigger] old(cells)@[c]),
        forall|i: int|
            0 <= i < old(nodes)@.len() ==> inside(
                size as int,
                (#[trigger] old(nodes)@[i]).ax as int,
                old(nodes)@[i].az as int,
            ),
    ensures
        ({
            let g = NodeGround {
                world_seed,
                size: size as int,
                lake_id: lake_id@,
                rivers: river_links@.dom(),
                mouth: mouth_distance@,
            };
            let out = nodes_seeded(
                g,
                before_seeding(g, old(cells)@, old(landmass_id)@, old(nodes)@),
            );
            &&& final(cells)@ == out.cells
            &&& final(landmass_id)@ == out.landmass
            &&& final(nodes)@ == out.nodes
            &&& out.well_formed(size as int)
        }),
{
    let ghost g = NodeGround {
        world_seed,
        size: size as int,
        lake_id: lake_id@,
        rivers: river_links@.dom(),
        mouth: mouth_distance@,
    };
    proof {
        lemma_side(size as int);
    }
    let count: usize = size * size;
    let mut field: NodeField = NodeField {
        cells: Vec::new(),
        landmass_id: Vec::new(),
        taken: vec![false; count],
        nodes: Vec::new(),
        rng: rng_seeded(layer_seed(world_seed, "atlas_nodes") as u64),
    };
    std::mem::swap(&mut field.cells, cells);
    std::mem::swap(&mut field.landmass_id, landmass_id);
    std::mem::swap(&mut field.nodes, nodes);
    let ghost start = before_seeding(g, old(cells)@, old(landmass_id)@, old(nodes)@);
    proof {
        assert(field@.taken =~= start.taken);
        assert(field@.past =~= start.past);
        assert(field@ == start);
    }
    let target: usize = clamp_i(max_i(72 * size as i32 / 1000, size as i32 / 10), 12, 96) as usize;
    let mut collar: i32 = collar_cells(size) + 2;
    if collar >= size as i32 / 2 {
        collar = max_i(2, size as i32 / 8);
    }
    let spacing: i32 = max_i(3, size as i32 / 36);
    field.seed_settlement_nodes(
        world_seed,
        size,
        lake_id,
        river_links,
        mouth_distance,
        settlement_target(size),
        spacing,
        Ghost(g),
    );
    assert(field@ == founded(g, start));
    field.roam(world_seed, size, lake_id, collar, spacing, target, Ghost(g));
    if field.nodes.len() < target {
        let stride: i32 = max_i(spacing, 4);
        field.sweep(
            world_seed,
            size,
            lake_id,
            collar + stride / 2,
            stride,
            size as i32 - collar,
            spacing,
            target,
            Ghost(g),
        );
    }
    if field.nodes.len() < 2 {
        let want: usize = if target > 4 {
            target
        } else {
            4
        };
        field.fill(world_seed, size, lake_id, max_i(spacing / 2, 2), want, Ghost(g));
    }
    assert(field@ == connected(g, founded(g, start)));
    field.seed_dungeon_nodes(world_seed, size, lake_id, spacing, Ghost(g));
    std::mem::swap(&mut field.cells, cells);
    std::mem::swap(&mut field.landmass_id, landmass_id);
    std::mem::swap(&mut field.nodes, nodes);
}

/// Nodes stand on the grid, on dry land, no two on a cell; settlements keep the
/// node spacing from each other, dungeons the dungeon spacing from what stood
/// before them and one step more from settlements.
pub open spec fn orderly(g: NodeGround, st: NodeState) -> bool {
    &&& st.well_formed(g.size)
    &&& forall|i: int|
        0 <= i < st.nodes.len() ==> node_stands(g, st, #[trigger] st.nodes[i])
    &&& forall|i: int, j: int|
        0 <= i < j < st.nodes.len() ==> keep_apart(g, #[trigger] st.nodes[i], #[trigger] st.nodes[j])
}

/// The node stands on a dry cell that is marked as taken.
pub open spec fn node_stands(g: NodeGround, st: NodeState, n: GraphNode) -> bool {
    &&& inside(g.size, n.ax as int, n.az as int)
    &&& n.cell == cell_number(g.size, n.ax as int, n.az as int)
    &&& st.taken[n.cell as int]
    &&& !wet(st.cells, n.cell as int)
}

/// What holds between a node and a later one.
pub open spec fn keep_apart(g: NodeGround, earlier: GraphNode, later: GraphNode) -> bool {
    &&& earlier.cell != later.cell
    &&& later.kind == NodeKind::Settlement ==> node_steps(
        earlier,
        later.ax as int,
        later.az as int,
    ) >= room(NodeKind::Settlement, earlier.kind, node_spacing(g.size))
    &&& later.kind == NodeKind::Dungeon ==> node_steps(earlier, later.ax as int, later.az as int)
        >= room(NodeKind::Dungeon, earlier.kind, dungeon_spacing(g.size))
}

proof fn lemma_put_orderly(g: NodeGround, st: NodeState, ax: int, az: int, kind: NodeKind)
    requires
        side_ok(g.size),
        orderly(g, st),
        inside(g.size, ax, az),
        !st.taken[cell_number(g.size, ax, az)],
        !wet(st.cells, cell_number(g.size, ax, az)),
        kind == NodeKind::Settlement ==> has_room(st.nodes, kind, ax, az, node_spacing(g.size)),
        kind == NodeKind::Dungeon ==> has_room(st.nodes, kind, ax, az, dungeon_spacing(g.size)),
    ensures
        orderly(g, st.with_node(g, ax, az, kind)),
{
    let c = cell_number(g.size, ax, az);
    lemma_side(g.size);
    lemma_coords_of_number(g.size, ax, az);
    let to = st.with_node(g, ax, az, kind);
    assert forall|i: int| 0 <= i < to.nodes.len() implies node_stands(
        g,
        to,
        #[trigger] to.nodes[i],
    ) by {
        if i < st.nodes.len() {
            assert(node_stands(g, st, st.nodes[i]));
            lemma_coords_of_number(g.size, st.nodes[i].ax as int, st.nodes[i].az as int);
        }
    }
    assert forall|i: int| 0 <= i < to.nodes.len() implies inside(
        g.size,
        (#[trigger] to.nodes[i]).ax as int,
        to.nodes[i].az as int,
    ) by {
        assert(node_stands(g, to, to.nodes[i]));
    }
    assert forall|i: int, j: int| 0 <= i < j < to.nodes.len() implies keep_apart(
        g,
        #[trigger] to.nodes[i],
        #[trigger] to.nodes[j],
    ) by {
        assert(node_stands(g, st, st.nodes[i]));
        if j < st.nodes.len() {
            assert(keep_apart(g, st.nodes[i], st.nodes[j]));
        } else {
            assert(st.nodes[i].cell != c);
        }
    }
}

proof fn lemma_dungeons_prefix(a: Seq<GraphNode>, b: Seq<GraphNode>, n: nat)
    requires
        n <= a.len(),
        n <= b.len(),
        forall|i: int| 0 <= i < n ==> a[i] == b[i],
    ensures
        dungeons_upto(a, n) == dungeons_upto(b, n),
    decreases n,
{
    if n > 0 {
        lemma_dungeons_prefix(a, b, (n - 1) as nat);
    }
}

/// Whether the cells keep their biomes and elevations, and those of water everything.
pub open spec fn ground_kept(size: int, before: Seq<i32>, after: Seq<i32>) -> bool {
    &&& after.len() == before.len()
    &&& forall|c: int|
        is_cell(size, c) ==> {
            &&& cell_biome_id(#[trigger] after[c]) == cell_biome_id(before[c])
            &&& cell_elevation(after[c]) == cell_elevation(before[c])
            &&& wet(before, c) ==> after[c] == before[c]
        }
}

/// The dungeons among the nodes.
pub open spec fn dungeons(st: NodeState) -> int {
    dungeons_upto(st.nodes, st.nodes.len())
}

proof fn lemma_put_dungeons(g: NodeGround, st: NodeState, ax: int, az: int, kind: NodeKind)
    ensures
        dungeons(st.with_node(g, ax, az, kind)) == dungeons(st) + if kind == NodeKind::Dungeon {
            1int
        } else {
            0
        },
{
    let to = st.with_node(g, ax, az, kind);
    lemma_dungeons_prefix(to.nodes, st.nodes, st.nodes.len());
}

proof fn lemma_settled_orderly(
    g: NodeGround,
    st: NodeState,
    ax: int,
    az: int,
    site: SettlementSite,
)
    requires
        side_ok(g.size),
        orderly(g, st),
    ensures
        orderly(g, settled_at(g, st, ax, az, site, node_spacing(g.size))),
        dungeons(settled_at(g, st, ax, az, site, node_spacing(g.size))) == dungeons(st),
        ground_kept(g.size, st.cells, settled_at(g, st, ax, az, site, node_spacing(g.size)).cells),
{
    if settlement_fits(g, st, ax, az, node_spacing(g.size)) {
        let c = cell_number(g.size, ax, az);
        lemma_coords_of_number(g.size, ax, az);
        lemma_put_orderly(g, st, ax, az, NodeKind::Settlement);
        lemma_put_dungeons(g, st, ax, az, NodeKind::Settlement);
        let mid = st.with_node(g, ax, az, NodeKind::Settlement);
        let to = settled_at(g, st, ax, az, site, node_spacing(g.size));
        let people = settlement_people(st.seed, st.past, site);
        lemma_repopulated_valid(st.cells[c], people.0);
        assert forall|d: int| is_cell(g.size, d) implies cell_valid(#[trigger] to.cells[d])
            && wet(to.cells, d) == wet(st.cells, d) by {
            assert(cell_valid(st.cells[d]));
        }
        assert forall|i: int| 0 <= i < to.nodes.len() implies node_stands(
            g,
            to,
            #[trigger] to.nodes[i],
        ) by {
            assert(node_stands(g, mid, mid.nodes[i]));
            lemma_coords_of_number(g.size, mid.nodes[i].ax as int, mid.nodes[i].az as int);
            assert(cell_valid(to.cells[mid.nodes[i].cell as int]));
        }
        assert forall|i: int, j: int| 0 <= i < j < to.nodes.len() implies keep_apart(
            g,
            #[trigger] to.nodes[i],
            #[trigger] to.nodes[j],
        ) by {
            assert(keep_apart(g, mid.nodes[i], mid.nodes[j]));
        }
    }
}

/// The state with other draws behind it, or another seed, or another label on a
/// cell, is as orderly.
proof fn lemma_same_order(g: NodeGround, st: NodeState, to: NodeState)
    requires
        orderly(g, st),
        to.cells == st.cells,
        to.taken == st.taken,
        to.nodes == st.nodes,
        to.landmass.len() == st.landmass.len(),
    ensures
        orderly(g, to),
        dungeons(to) == dungeons(st),
{
    assert forall|i: int| 0 <= i < to.nodes.len() implies node_stands(
        g,
        to,
        #[trigger] to.nodes[i],
    ) by {
        assert(node_stands(g, st, st.nodes[i]));
    }
}

proof fn lemma_tried_orderly(g: NodeGround, st: NodeState, ax: int, az: int, spacing: int)
    requires
        side_ok(g.size),
        orderly(g, st),
    ensures
        orderly(g, node_tried(g, st, ax, az, spacing)),
        dungeons(node_tried(g, st, ax, az, spacing)) == dungeons(st),
        ground_kept(g.size, st.cells, node_tried(g, st, ax, az, spacing).cells),
{
    let c = cell_number(g.size, ax, az);
    if inside(g.size, ax, az) && !wet(st.cells, c) && !st.taken[c] {
        let kind = road_node_kind(g, st, ax, az);
        let asked = NodeState { past: kind.1, ..st.with_mass(c) };
        lemma_coords_of_number(g.size, ax, az);
        lemma_same_order(g, st, asked);
        lemma_put_orderly(g, asked, ax, az, kind.0);
        lemma_put_dungeons(g, asked, ax, az, kind.0);
    }
}

proof fn lemma_dig_orderly(g: NodeGround, st: NodeState, ax: int, az: int)
    requires
        side_ok(g.size),
        orderly(g, st),
    ensures
        orderly(g, dungeon_tried(g, st, ax, az, dungeon_spacing(g.size))),
        dungeons(dungeon_tried(g, st, ax, az, dungeon_spacing(g.size))) <= dungeons(st) + 1,
        ground_kept(g.size, st.cells, dungeon_tried(g, st, ax, az, dungeon_spacing(g.size)).cells),
{
    if dungeon_fits(g, st, ax, az, dungeon_spacing(g.size)) {
        lemma_put_orderly(g, st, ax, az, NodeKind::Dungeon);
        lemma_put_dungeons(g, st, ax, az, NodeKind::Dungeon);
    }
}

proof fn lemma_settle_run_orderly(
    g: NodeGround,
    b: Seq<Seq<i32>>,
    target: int,
    st: NodeState,
    placed: int,
    left: nat,
)
    requires
        side_ok(g.size),
        orderly(g, st),
    ensures
        orderly(g, settle_run(g, b, node_spacing(g.size), target, st, placed, left)),
        dungeons(settle_run(g, b, node_spacing(g.size), target, st, placed, left)) == dungeons(st),
        ground_kept(g.size, st.cells, settle_run(g, b, node_spacing(g.size), target, st, placed, left).cells),
    decreases left,
{
    let gap = node_spacing(g.size);
    let picked = tier_drawn(b, fraction_of(drawn(st.seed, st.past, Draw::Word)));
    if left == 0 || placed >= target || weight_upto(b, 4) == 0 {
    } else if picked is None {
        lemma_same_order(g, st, NodeState { past: st.past.push(Draw::Word), ..st });
    } else {
        let t = picked->0;
        let ask = Draw::Index { hi: b[t].len() as usize };
        let pick = b[t][drawn(st.seed, st.past.push(Draw::Word), ask)];
        let asked = NodeState { past: st.past.push(Draw::Word).push(ask), ..st };
        let ax = cell_x(g.size, pick as int);
        let az = cell_z(g.size, pick as int);
        lemma_same_order(g, st, asked);
        lemma_settled_orderly(g, asked, ax, az, tier_site(t));
        lemma_settle_run_orderly(
            g,
            b,
            target,
            settled_at(g, asked, ax, az, tier_site(t), gap),
            placed + if settlement_fits(g, asked, ax, az, gap) {
                1int
            } else {
                0
            },
            (left - 1) as nat,
        );
    }
}

proof fn lemma_roam_orderly(
    g: NodeGround,
    lo: i32,
    hi: i32,
    spacing: int,
    target: int,
    st: NodeState,
    left: nat,
)
    requires
        side_ok(g.size),
        orderly(g, st),
    ensures
        orderly(g, roam_run(g, lo, hi, spacing, target, st, left)),
        dungeons(roam_run(g, lo, hi, spacing, target, st, left)) == dungeons(st),
        ground_kept(g.size, st.cells, roam_run(g, lo, hi, spacing, target, st, left).cells),
    decreases left,
{
    if left > 0 && st.nodes.len() < target {
        let ask = Draw::Signed { lo, hi };
        let ax = drawn(st.seed, st.past, ask);
        let az = drawn(st.seed, st.past.push(ask), ask);
        let asked = NodeState { past: st.past.push(ask).push(ask), ..st };
        lemma_same_order(g, st, asked);
        lemma_tried_orderly(g, asked, ax, az, spacing);
        lemma_roam_orderly(
            g,
            lo,
            hi,
            spacing,
            target,
            node_tried(g, asked, ax, az, spacing),
            (left - 1) as nat,
        );
    }
}

proof fn lemma_column_orderly(
    g: NodeGround,
    ax: int,
    az: int,
    stride: int,
    end: int,
    spacing: int,
    target: int,
    st: NodeState,
)
    requires
        side_ok(g.size),
        orderly(g, st),
    ensures
        orderly(g, column_run(g, ax, az, stride, end, spacing, target, st)),
        dungeons(column_run(g, ax, az, stride, end, spacing, target, st)) == dungeons(st),
        ground_kept(g.size, st.cells, column_run(g, ax, az, stride, end, spacing, target, st).cells),
    decreases end + stride - az,
{
    if stride > 0 && az < end && st.nodes.len() < target {
        lemma_tried_orderly(g, st, ax, az, spacing);
        lemma_column_orderly(
            g,
            ax,
            az + stride,
            stride,
            end,
            spacing,
            target,
            node_tried(g, st, ax, az, spacing),
        );
    }
}

proof fn lemma_raster_orderly(
    g: NodeGround,
    ax: int,
    start: int,
    stride: int,
    end: int,
    spacing: int,
    target: int,
    st: NodeState,
)
    requires
        side_ok(g.size),
        orderly(g, st),
    ensures
        orderly(g, raster_run(g, ax, start, stride, end, spacing, target, st)),
        dungeons(raster_run(g, ax, start, stride, end, spacing, target, st)) == dungeons(st),
        ground_kept(g.size, st.cells, raster_run(g, ax, start, stride, end, spacing, target, st).cells),
    decreases end + stride - ax,
{
    if stride > 0 && ax < end && st.nodes.len() < target {
        lemma_column_orderly(g, ax, start, stride, end, spacing, target, st);
        lemma_raster_orderly(
            g,
            ax + stride,
            start,
            stride,
            end,
            spacing,
            target,
            column_run(g, ax, start, stride, end, spacing, target, st),
        );
    }
}

proof fn lemma_fill_orderly(g: NodeGround, c: int, spacing: int, want: int, st: NodeState)
    requires
        side_ok(g.size),
        orderly(g, st),
    ensures
        orderly(g, fill_run(g, c, spacing, want, st)),
        dungeons(fill_run(g, c, spacing, want, st)) == dungeons(st),
        ground_kept(g.size, st.cells, fill_run(g, c, spacing, want, st).cells),
    decreases g.size * g.size - c,
{
    if c < g.size * g.size && st.nodes.len() < want {
        lemma_tried_orderly(g, st, cell_x(g.size, c), cell_z(g.size, c), spacing);
        lemma_fill_orderly(
            g,
            c + 1,
            spacing,
            want,
            node_tried(g, st, cell_x(g.size, c), cell_z(g.size, c), spacing),
        );
    }
}

proof fn lemma_dig_run_orderly(
    g: NodeGround,
    lo: i32,
    hi: i32,
    target: int,
    st: NodeState,
    left: nat,
)
    requires
        side_ok(g.size),
        orderly(g, st),
        dungeons(st) <= target,
    ensures
        orderly(g, dig_run(g, lo, hi, dungeon_spacing(g.size), target, st, left)),
        dungeons(dig_run(g, lo, hi, dungeon_spacing(g.size), target, st, left)) <= target,
        ground_kept(g.size, st.cells, dig_run(g, lo, hi, dungeon_spacing(g.size), target, st, left).cells),
    decreases left,
{
    if left > 0 && dungeons(st) < target {
        let ask = Draw::Signed { lo, hi };
        let ax = drawn(st.seed, st.past, ask);
        let az = drawn(st.seed, st.past.push(ask), ask);
        let asked = NodeState { past: st.past.push(ask).push(ask), ..st };
        lemma_same_order(g, st, asked);
        lemma_dig_orderly(g, asked, ax, az);
        lemma_dig_run_orderly(
            g,
            lo,
            hi,
            target,
            dungeon_tried(g, asked, ax, az, dungeon_spacing(g.size)),
            (left - 1) as nat,
        );
    }
}

/// On a continent without nodes yet, every node that seeding puts stands on dry
/// land of its own; settlements keep their spacing from each other and dungeons
/// theirs from everything that stood before; there are no more dungeons than
/// aimed for, and the ground keeps its biomes and elevations.
pub proof fn law_seeded_nodes_keep_apart(g: NodeGround, cells: Seq<i32>, landmass: Seq<i32>)
    requires
        side_ok(g.size),
        cells.len() == g.size * g.size,
        landmass.len() == g.size * g.size,
        forall|c: int| is_cell(g.size, c) ==> cell_valid(#[trigger] cells[c]),
    ensures
        orderly(g, nodes_seeded(g, before_seeding(g, cells, landmass, Seq::empty()))),
        dungeons(nodes_seeded(g, before_seeding(g, cells, landmass, Seq::empty())))
            <= dungeon_goal(g.size),
        ground_kept(
            g.size,
            cells,
            nodes_seeded(g, before_seeding(g, cells, landmass, Seq::empty())).cells,
        ),
{
    let st = before_seeding(g, cells, landmass, Seq::empty());
    let goal = node_goal(g.size);
    let collar = node_collar(g.size);
    let gap = node_spacing(g.size);
    assert(orderly(g, st));
    let towns = founded(g, st);
    lemma_settle_run_orderly(
        g,
        all_offers(g, st.cells),
        settlement_goal(g.size),
        st,
        0,
        (settlement_goal(g.size) * 500) as nat,
    );
    let roamed = roam_run(
        g,
        collar as i32,
        (g.size - collar) as i32,
        gap,
        goal,
        towns,
        (goal * 120) as nat,
    );
    lemma_roam_orderly(
        g,
        collar as i32,
        (g.size - collar) as i32,
        gap,
        goal,
        towns,
        (goal * 120) as nat,
    );
    let stride = max_of(gap, 4);
    let at = collar + stride / 2;
    lemma_raster_orderly(g, at, at, stride, g.size - collar, gap, goal, roamed);
    let swept = if roamed.nodes.len() < goal {
        raster_run(g, at, at, stride, g.size - collar, gap, goal, roamed)
    } else {
        roamed
    };
    lemma_fill_orderly(g, 0, max_of(gap / 2, 2), max_of(goal, 4), swept);
    let roads = connected(g, towns);
    let fresh = NodeState {
        seed: layer_seed_of(g.world_seed, "atlas_dungeons"@) as u64,
        past: Seq::empty(),
        ..roads
    };
    lemma_same_order(g, roads, fresh);
    lemma_dig_run_orderly(
        g,
        dungeon_collar(g.size) as i32,
        (g.size - dungeon_collar(g.size)) as i32,
        dungeon_goal(g.size),
        fresh,
        (dungeon_goal(g.size) * 400) as nat,
    );
}

} // verus!
