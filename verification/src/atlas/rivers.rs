//! Major river graph over the drained land.

use crate::atlas::biomes::{biome_number, Biome};
use crate::atlas::cell_map::{list_at, lists, map_insert, map_new, map_remove};
use crate::atlas::drainage::{
    areas_drained, drain_areas, drained_cell, drains_in_order, flooded, law_areas_are_determined,
    priority_flood_fill, receiver_lowest,
    water_known, wet,
};
use crate::atlas::features::{
    edge_holder, edge_key, edge_key_of, edge_owner, Dir, EndpointKind, Kind,
    law_edge_owner_of_key,
};
use crate::atlas::grid::{
    adjacent, cell_x, cell_z, inside, is_cell, neighbor, side_ok, step, lemma_adjacent_symmetric,
    lemma_cell_coords, lemma_side, lemma_step_coords,
};
use crate::atlas::pack::{
    biome, cell_biome, cell_biome_id, cell_humidity, cell_pop, cell_relief, cell_valid, code_metres,
    elevation_to_metres, humidity, law_pack_round_trip, pack, packed_cell, population, relief,
    lemma_field_ranges,
};
use crate::atlas::river_laws::law_rivers_run_where_enough_drains;
use crate::atlas::seeds::{
    decimal_text, feature_hash, feature_hash_of, layer_seed, layer_seed_of, part_views,
};
use crate::atlas::types::{Endpoint, Lake, Link, Port};
use crate::text::{decimal, push_decimal};
use rustc_hash::FxHashMap;
use vstd::prelude::*;
use vstd::string::*;

verus! {

pub struct RiverGraph {
    pub ports: FxHashMap<i32, Vec<Port>>,
    pub links: FxHashMap<i32, Vec<Link>>,
    pub receiver: Vec<i32>,
}

impl RiverGraph {
    pub fn new(count: usize) -> (r: Self)
        ensures
            lists(r.ports@) == Map::<i32, Seq<Port>>::empty(),
            lists(r.links@) == Map::<i32, Seq<Link>>::empty(),
            r.receiver@ == Seq::new(count as nat, |i: int| -1i32),
    {
        let r = RiverGraph { ports: map_new(), links: map_new(), receiver: vec![-1; count] };
        assert(lists(r.ports@) =~= Map::<i32, Seq<Port>>::empty());
        assert(lists(r.links@) =~= Map::<i32, Seq<Link>>::empty());
        assert(r.receiver@ =~= Seq::new(count as nat, |i: int| -1i32));
        r
    }
}


/// A packed cell with another elevation.
pub open spec fn cell_raised(cell: i32, elev: u8) -> i32 {
    packed_cell(
        elev as int,
        cell_humidity(cell) as int,
        cell_biome(cell),
        cell_relief(cell) as int,
        cell_pop(cell) as int,
    )
}

/// Writes the elevation codes into the packed cells.
pub fn rewrite_cell_elevations(cells: &mut [i32], elev_code: &[u8])
    requires
        old(cells)@.len() == elev_code@.len(),
        forall|c: int| 0 <= c < old(cells)@.len() ==> cell_valid(#[trigger] old(cells)@[c]),
    ensures
        final(cells)@ == Seq::new(
            old(cells)@.len(),
            |c: int| cell_raised(old(cells)@[c], elev_code@[c]),
        ),
        forall|c: int|
            0 <= c < old(cells)@.len() ==> {
                &&& cell_valid(#[trigger] final(cells)@[c])
                &&& cell_biome_id(final(cells)@[c]) == cell_biome_id(old(cells)@[c])
            },
{
    let ghost before = cells@;
    let mut i: usize = 0;
    while i < cells.len()
        invariant
            i <= cells@.len(),
            cells@.len() == before.len(),
            before.len() == elev_code@.len(),
            forall|c: int| 0 <= c < before.len() ==> cell_valid(#[trigger] before[c]),
            forall|c: int|
                0 <= c < before.len() ==> #[trigger] cells@[c] == (if c < i {
                    cell_raised(before[c], elev_code@[c])
                } else {
                    before[c]
                }),
        decreases cells@.len() - i,
    {
        assert(cell_valid(before[i as int]));
        let old_cell: i32 = cells[i];
        cells[i] =
        pack(
            elev_code[i] as i32,
            humidity(old_cell),
            biome(old_cell),
            relief(old_cell),
            population(old_cell),
        );
        i += 1;
    }
    assert(cells@ =~= Seq::new(before.len(), |c: int| cell_raised(before[c], elev_code@[c])));
    proof {
        assert forall|c: int| 0 <= c < before.len() implies {
            &&& cell_valid(#[trigger] cells@[c])
            &&& cell_biome_id(cells@[c]) == cell_biome_id(before[c])
        } by {
            lemma_raised_biome(before[c], elev_code@[c]);
        }
    }
}

/// A raised cell keeps its biome.
pub proof fn lemma_raised_biome(cell: i32, elev: u8)
    requires
        cell_valid(cell),
    ensures
        cell_valid(cell_raised(cell, elev)),
        cell_biome_id(cell_raised(cell, elev)) == cell_biome_id(cell),
{
    lemma_field_ranges(cell);
    law_pack_round_trip(
        elev as int,
        cell_humidity(cell) as int,
        cell_biome(cell),
        cell_relief(cell) as int,
        cell_pop(cell) as int,
    );
    lemma_some_biome(cell_biome_id(cell) as int);
}

proof fn lemma_some_biome(id: int)
    requires
        0 <= id <= 8,
    ensures
        exists|b: Biome| biome_number(b) == id,
{
    let b = if id == 0 {
        Biome::Ocean
    } else if id == 1 {
        Biome::Coast
    } else if id == 2 {
        Biome::Plains
    } else if id == 3 {
        Biome::Forest
    } else if id == 4 {
        Biome::Wetland
    } else if id == 5 {
        Biome::Arid
    } else if id == 6 {
        Biome::Alpine
    } else if id == 7 {
        Biome::Tundra
    } else {
        Biome::Lake
    };
    assert(biome_number(b) == id);
}

pub open spec fn abs_of(x: int) -> int {
    if x < 0 {
        -x
    } else {
        x
    }
}

/// The main direction of a step: along the row unless the step is longer along
/// the column.
pub open spec fn delta_dir(dx: int, dz: int) -> Option<Dir> {
    if dx == 0 && dz == 0 {
        None
    } else if abs_of(dx) >= abs_of(dz) {
        Some(if dx > 0 {
            Dir::East
        } else {
            Dir::West
        })
    } else {
        Some(if dz > 0 {
            Dir::South
        } else {
            Dir::North
        })
    }
}

pub fn dir_from_delta(dx: i32, dz: i32) -> (r: Option<Dir>)
    requires
        dx > i32::MIN,
        dz > i32::MIN,
    ensures
        r == delta_dir(dx as int, dz as int),
{
    if dx == 0 && dz == 0 {
        return None;
    }
    let wide: i32 = if dx < 0 {
        -dx
    } else {
        dx
    };
    let tall: i32 = if dz < 0 {
        -dz
    } else {
        dz
    };
    if wide >= tall {
        Some(
            if dx > 0 {
                Dir::East
            } else {
                Dir::West
            },
        )
    } else {
        Some(
            if dz > 0 {
                Dir::South
            } else {
                Dir::North
            },
        )
    }
}

/// The side of `a` that faces the neighbouring cell `b`.
pub open spec fn side_towards(size: int, a: int, b: int) -> Dir {
    delta_dir(cell_x(size, b) - cell_x(size, a), cell_z(size, b) - cell_z(size, a))->0
}

/// The key of the edge between `a` and the neighbouring cell `b`.
pub open spec fn key_between(size: int, a: int, b: int) -> i32 {
    edge_key_of(cell_x(size, a), cell_z(size, a), side_towards(size, a, b))
}

proof fn lemma_side_towards(size: int, a: int, b: int)
    requires
        side_ok(size),
        is_cell(size, a),
        is_cell(size, b),
        adjacent(size, a, b),
    ensures
        delta_dir(cell_x(size, b) - cell_x(size, a), cell_z(size, b) - cell_z(size, a)) is Some,
        ({
            let h = edge_holder(cell_x(size, a), cell_z(size, a), side_towards(size, a, b));
            inside(size, h.0, h.1)
        }),
{
    lemma_cell_coords(size, a);
    lemma_cell_coords(size, b);
    let k = choose|k: int| 0 <= k < 4 && #[trigger] step(size, a, k) == Some(b);
    lemma_step_coords(size, cell_x(size, a), cell_z(size, a), k);
    let nx = cell_x(size, a) + (if k == 0 { 1int } else if k == 2 { -1 } else { 0 });
    let nz = cell_z(size, a) + (if k == 1 { 1int } else if k == 3 { -1 } else { 0 });
    assert(inside(size, nx, nz));
    crate::atlas::grid::lemma_coords_of_number(size, nx, nz);
}

/// The key of the edge between two neighbouring cells.
fn edge_between(size: usize, a: usize, b: usize) -> (r: i32)
    requires
        side_ok(size as int),
        is_cell(size as int, a as int),
        is_cell(size as int, b as int),
        adjacent(size as int, a as int, b as int),
    ensures
        r == key_between(size as int, a as int, b as int),
{
    proof {
        lemma_side(size as int);
        lemma_side_towards(size as int, a as int, b as int);
        lemma_cell_coords(size as int, a as int);
        lemma_cell_coords(size as int, b as int);
    }
    let ax: i32 = (a % size) as i32;
    let az: i32 = (a / size) as i32;
    let dx: i32 = (b % size) as i32 - ax;
    let dz: i32 = (b / size) as i32 - az;
    let dir: Dir = dir_from_delta(dx, dz).unwrap();
    edge_key(ax, az, dir, size)
}

/// How many threefold steps fit into the area, from one to four.
pub open spec fn class_of_area(area: int) -> int {
    if area < 9 {
        1
    } else if area < 27 {
        2
    } else if area < 81 {
        3
    } else {
        4
    }
}

/// River class of a drained area: the whole logarithm to base three, from one to
/// four.
pub fn river_class(area: u32) -> (r: i32)
    ensures
        r == class_of_area(area as int),
{
    if area < 9 {
        1
    } else if area < 27 {
        2
    } else if area < 81 {
        3
    } else {
        4
    }
}

/// Whether land that drains `area` cells carries a river: twelve cells, and 18
/// for every hundred cells of the continent's side.
pub open spec fn carries_river(size: int, area: int) -> bool {
    area >= 12 && 1000 * area >= 180 * size
}

/// One visit to the port of the edge between `from` and `to`.
pub ghost struct PortVisit {
    pub from: int,
    pub to: int,
    pub class: int,
    pub z: int,
    pub serial: int,
}

/// The name a new port's place along its edge is seeded with.
pub open spec fn port_name(size: int, v: PortVisit) -> Seq<char> {
    let key = key_between(size, v.from, v.to);
    "edge_r_"@ + decimal((key & 0xFFF) as int) + "_"@ + decimal(((key >> 12) & 0xFFF) as int) + "_"@
        + decimal(((key >> 24) & 0xF) as int) + "_"@ + decimal(v.serial)
}

/// The port that a first visit makes.
pub open spec fn new_port(world_seed: i32, size: int, v: PortVisit) -> Port {
    let key = key_between(size, v.from, v.to);
    Port {
        id: 0,
        t_seed: layer_seed_of(world_seed, port_name(size, v)),
        kind: Kind::River,
        feature_class: v.class as i32,
        flow_sign: 1,
        surface_z: v.z as i32,
        feature_id: feature_hash_of(
            seq![decimal(world_seed as int), "river"@, decimal(key as int), "0"@],
        ),
    }
}

/// A port visited again: it takes the higher class, and a height if it had none.
pub open spec fn port_again(p: Port, v: PortVisit) -> Port {
    Port {
        feature_class: if p.feature_class < v.class {
            v.class as i32
        } else {
            p.feature_class
        },
        surface_z: if p.surface_z == 0 {
            v.z as i32
        } else {
            p.surface_z
        },
        ..p
    }
}

/// The ports of an edge after a visit.
pub open spec fn ports_visited(world_seed: i32, size: int, ports: Seq<Port>, v: PortVisit) -> Seq<
    Port,
> {
    if ports.len() == 0 {
        seq![new_port(world_seed, size, v)]
    } else {
        Seq::new(ports.len(), |i: int| port_again(ports[i], v))
    }
}

/// The last of the ports with the highest class.
pub open spec fn is_main_port(ports: Seq<Port>, p: Port) -> bool {
    exists|i: int|
        #![trigger ports[i]]
        0 <= i < ports.len() && ports[i] == p && forall|j: int|
            #![trigger ports[j]]
            0 <= j < ports.len() ==> ports[j].feature_class <= p.feature_class && (j > i
                ==> ports[j].feature_class < p.feature_class)
}

fn port_name_text(key: i32, serial: i32) -> (r: String)
    requires
        (key >> 24) & 0xF < 4,
    ensures
        r@ == "edge_r_"@ + decimal((key & 0xFFF) as int) + "_"@ + decimal(
            ((key >> 12) & 0xFFF) as int,
        ) + "_"@ + decimal(((key >> 24) & 0xF) as int) + "_"@ + decimal(serial as int),
{
    let (ox, oz, side) = edge_owner(key);
    let mut name: String = crate::text::owned("edge_r_");
    push_decimal(&mut name, ox as i64);
    name.append("_");
    push_decimal(&mut name, oz as i64);
    name.append("_");
    push_decimal(&mut name, side.number() as i64);
    name.append("_");
    push_decimal(&mut name, serial as i64);
    name
}

/// Visits the port of the edge between the neighbouring cells `from` and `to`,
/// making it where there is none, and returns the edge's main port.
pub fn ensure_river_port(
    world_seed: i32,
    size: usize,
    from: usize,
    to: usize,
    feature_class: i32,
    surface_z: i32,
    serial: i32,
    ports: &mut FxHashMap<i32, Vec<Port>>,
) -> (r: Port)
    requires
        side_ok(size as int),
        size <= 4096,
        is_cell(size as int, from as int),
        is_cell(size as int, to as int),
        adjacent(size as int, from as int, to as int),
    ensures
        ({
            let key = key_between(size as int, from as int, to as int);
            let v = PortVisit {
                from: from as int,
                to: to as int,
                class: feature_class as int,
                z: surface_z as int,
                serial: serial as int,
            };
            let after = ports_visited(
                world_seed,
                size as int,
                list_at(lists(old(ports)@), key),
                v,
            );
            &&& lists(final(ports)@) == lists(old(ports)@).insert(key, after)
            &&& is_main_port(after, r)
        }),
{
    let key: i32 = edge_between(size, from, to);
    let ghost v = PortVisit {
        from: from as int,
        to: to as int,
        class: feature_class as int,
        z: surface_z as int,
        serial: serial as int,
    };
    let ghost before = lists(ports@);
    proof {
        lemma_key_bits(size as int, from as int, to as int);
    }
    let mut entry: Vec<Port> = match map_remove(ports, key) {
        Some(list) => list,
        None => Vec::new(),
    };
    let ghost entry0 = entry@;
    assert(entry0 == list_at(before, key));
    if entry.len() == 0 {
        let name: String = port_name_text(key, serial);
        let seed_text: String = decimal_text(world_seed as i64);
        let key_text: String = decimal_text(key as i64);
        let parts: [&str; 4] = [seed_text.as_str(), "river", key_text.as_str(), "0"];
        assert(part_views(parts@) =~= seq![
            decimal(world_seed as int),
            "river"@,
            decimal(key as int),
            "0"@,
        ]);
        let port = Port {
            id: 0,
            t_seed: layer_seed(world_seed, name.as_str()),
            kind: Kind::River,
            feature_class,
            flow_sign: 1,
            surface_z,
            feature_id: feature_hash(&parts),
        };
        entry.push(port);
        assert(entry@ =~= ports_visited(world_seed, size as int, entry0, v));
        assert(entry@[0] == port);
        map_insert(ports, key, entry);
        assert(lists(ports@) =~= before.insert(key, entry@));
        return port;
    }
    let mut best_i: usize = 0;
    let mut i: usize = 0;
    while i < entry.len()
        invariant
            i <= entry@.len(),
            entry@.len() == entry0.len(),
            entry0.len() > 0,
            v.class == feature_class,
            v.z == surface_z,
            best_i < entry@.len(),
            best_i <= i,
            i > 0 ==> best_i < i,
            forall|j: int|
                #![trigger entry@[j]]
                0 <= j < entry@.len() ==> entry@[j] == (if j < i {
                    port_again(entry0[j], v)
                } else {
                    entry0[j]
                }),
            forall|j: int|
                #![trigger entry@[j]]
                0 <= j < i ==> entry@[j].feature_class <= entry@[best_i as int].feature_class && (j
                    > best_i ==> entry@[j].feature_class < entry@[best_i as int].feature_class),
        decreases entry@.len() - i,
    {
        let mut port: Port = entry[i];
        if port.feature_class < feature_class {
            port.feature_class = feature_class;
        }
        if port.surface_z == 0 {
            port.surface_z = surface_z;
        }
        entry.set(i, port);
        if port.feature_class >= entry[best_i].feature_class {
            best_i = i;
        }
        i += 1;
    }
    assert(entry@ =~= ports_visited(world_seed, size as int, entry0, v));
    let best: Port = entry[best_i];
    assert(entry@[best_i as int] == best);
    let ghost after = entry@;
    map_insert(ports, key, entry);
    assert(lists(ports@) =~= before.insert(key, after));
    best
}

proof fn lemma_key_bits(size: int, a: int, b: int)
    requires
        side_ok(size),
        size <= 4096,
        is_cell(size, a),
        is_cell(size, b),
        adjacent(size, a, b),
    ensures
        (key_between(size, a, b) >> 24) & 0xF < 4,
{
    lemma_side_towards(size, a, b);
    let h = edge_holder(cell_x(size, a), cell_z(size, a), side_towards(size, a, b));
    law_edge_owner_of_key(h.0 as i32, h.1 as i32, h.2);
}


/// The drained land that rivers are read from.
pub struct RiverField<'a> {
    pub world_seed: i32,
    pub size: usize,
    pub cells: &'a [i32],
    pub elev_code: &'a [u8],
    pub lake_id: &'a [i32],
    pub lakes: &'a [Lake],
    pub receiver: &'a [i32],
    pub area: &'a [u32],
}

/// The drained land that rivers are read from, as sequences.
pub ghost struct RiverView {
    pub world_seed: i32,
    pub size: int,
    pub cells: Seq<i32>,
    pub elev_code: Seq<u8>,
    pub lake_id: Seq<i32>,
    pub lakes: Seq<Lake>,
    pub receiver: Seq<i32>,
    pub area: Seq<u32>,
}

impl View for RiverField<'_> {
    type V = RiverView;

    open spec fn view(&self) -> RiverView {
        RiverView {
            world_seed: self.world_seed,
            size: self.size as int,
            cells: self.cells@,
            elev_code: self.elev_code@,
            lake_id: self.lake_id@,
            lakes: self.lakes@,
            receiver: self.receiver@,
            area: self.area@,
        }
    }
}

impl RiverView {
    /// The planes have one entry a cell, water is known, and receivers are
    /// neighbours.
    pub open spec fn well_formed(&self) -> bool {
        let n = self.size;
        &&& side_ok(n)
        &&& n <= 4096
        &&& water_known(n, self.cells, self.lake_id, self.lakes)
        &&& self.elev_code.len() == n * n
        &&& self.receiver.len() == n * n
        &&& self.area.len() == n * n
        &&& forall|c: int|
            is_cell(n, c) && #[trigger] self.receiver[c] >= 0 ==> is_cell(
                n,
                self.receiver[c] as int,
            ) && adjacent(n, self.receiver[c] as int, c)
    }

    /// Land that carries a river.
    pub open spec fn is_channel(&self, c: int) -> bool {
        !wet(self.cells, c) && carries_river(self.size, self.area[c] as int)
    }

    /// A river cell that hands its water on.
    pub open spec fn flows(&self, c: int) -> bool {
        self.is_channel(c) && self.receiver[c] >= 0
    }

    /// Where the river of a cell goes: into the sea, a lake, or over an edge.
    pub open spec fn outflow(&self, c: int) -> Endpoint {
        let d = self.receiver[c] as int;
        if cell_biome_id(self.cells[d]) == 0 {
            Endpoint { kind: EndpointKind::Ocean, ref_id: 0, port_id: 0 }
        } else if cell_biome_id(self.cells[d]) == 8 {
            Endpoint { kind: EndpointKind::Lake, ref_id: self.lake_id[d], port_id: 0 }
        } else {
            Endpoint {
                kind: EndpointKind::EdgePort,
                ref_id: key_between(self.size, c, d),
                port_id: 0,
            }
        }
    }

    /// Water height of a river cell: the lake's it runs into, else the ground's.
    pub open spec fn river_z(&self, c: int) -> int {
        let d = self.receiver[c] as int;
        if cell_biome_id(self.cells[d]) == 8 {
            self.lakes[self.lake_id[d] as int].surface_z as int
        } else {
            code_metres(self.elev_code[c] as int)
        }
    }

    pub open spec fn class_at(&self, c: int) -> int {
        class_of_area(self.area[c] as int)
    }

    pub open spec fn river_link(&self, c: int, a: Endpoint) -> Link {
        let b = self.outflow(c);
        Link {
            a,
            b,
            kind: Kind::River,
            feature_class: self.class_at(c) as i32,
            feature_id: feature_hash_of(
                seq![
                    decimal(self.world_seed as int),
                    "rlink"@,
                    decimal(c),
                    decimal(a.ref_id as int),
                    decimal(b.ref_id as int),
                ],
            ),
        }
    }

    /// The neighbour on side `k` is a river cell that runs into `c`.
    pub open spec fn feeds(&self, c: int, k: int) -> bool {
        match step(self.size, c, k) {
            Some(nb) => self.is_channel(nb) && self.receiver[nb] == c,
            None => false,
        }
    }

    /// Links of a river cell from the rivers that run into it over its first `n`
    /// sides.
    pub open spec fn inflow_links(&self, c: int, n: nat) -> Seq<Link>
        decreases n,
    {
        if n == 0 {
            Seq::empty()
        } else if self.feeds(c, n - 1) {
            self.inflow_links(c, (n - 1) as nat).push(
                self.river_link(
                    c,
                    Endpoint {
                        kind: EndpointKind::EdgePort,
                        ref_id: key_between(
                            self.size,
                            step(self.size, c, n - 1)->0,
                            c,
                        ),
                        port_id: 0,
                    },
                ),
            )
        } else {
            self.inflow_links(c, (n - 1) as nat)
        }
    }

    /// All links of a river cell: from each river that runs into it, or from its
    /// spring.
    pub open spec fn cell_links(&self, c: int) -> Seq<Link> {
        if self.inflow_links(c, 4).len() == 0 {
            seq![
                self.river_link(
                    c,
                    Endpoint {
                        kind: EndpointKind::Node,
                        ref_id: (-1 - c) as i32,
                        port_id: 0,
                    },
                ),
            ]
        } else {
            self.inflow_links(c, 4)
        }
    }

    /// Port visits of a river cell for its outflow and its first `n` sides,
    /// counted from `serial` on.
    pub open spec fn cell_visits(&self, c: int, serial: int, n: nat) -> Seq<PortVisit>
        decreases n,
    {
        let d = self.receiver[c] as int;
        if n == 0 {
            if wet(self.cells, d) {
                Seq::empty()
            } else {
                seq![
                    PortVisit {
                        from: c,
                        to: d,
                        class: self.class_at(c),
                        z: self.river_z(c),
                        serial,
                    },
                ]
            }
        } else {
            let before = self.cell_visits(c, serial, (n - 1) as nat);
            if self.feeds(c, n - 1) {
                before.push(
                    PortVisit {
                        from: step(self.size, c, n - 1)->0,
                        to: c,
                        class: self.class_at(c),
                        z: self.river_z(c),
                        serial: serial + before.len(),
                    },
                )
            } else {
                before
            }
        }
    }

    /// Port visits of the river cells below `upto`, in order.
    pub open spec fn all_visits(&self, upto: nat) -> Seq<PortVisit>
        decreases upto,
    {
        if upto == 0 {
            Seq::empty()
        } else {
            let before = self.all_visits((upto - 1) as nat);
            if self.flows(upto - 1) {
                before + self.cell_visits(upto - 1, before.len() as int, 4)
            } else {
                before
            }
        }
    }
}

/// The ports of a graph after a run of visits.
pub open spec fn after_visits(
    world_seed: i32,
    size: int,
    ports: Map<i32, Seq<Port>>,
    visits: Seq<PortVisit>,
) -> Map<i32, Seq<Port>>
    decreases visits.len(),
{
    if visits.len() == 0 {
        ports
    } else {
        let before = after_visits(world_seed, size, ports, visits.drop_last());
        let v = visits.last();
        let key = key_between(size, v.from, v.to);
        before.insert(key, ports_visited(world_seed, size, list_at(before, key), v))
    }
}

proof fn lemma_after_one_more(
    world_seed: i32,
    size: int,
    ports: Map<i32, Seq<Port>>,
    visits: Seq<PortVisit>,
    v: PortVisit,
)
    ensures
        ({
            let before = after_visits(world_seed, size, ports, visits);
            let key = key_between(size, v.from, v.to);
            after_visits(world_seed, size, ports, visits.push(v)) == before.insert(
                key,
                ports_visited(world_seed, size, list_at(before, key), v),
            )
        }),
{
    assert(visits.push(v).drop_last() =~= visits);
}

/// A link of the river through `cell`.
fn make_river_link(
    f: &RiverField<'_>,
    cell: usize,
    a: Endpoint,
    b: Endpoint,
    feature_class: i32,
) -> (r: Link)
    requires
        cell <= 2147395600,
        b == f@.outflow(cell as int),
        feature_class == f@.class_at(cell as int),
    ensures
        r == f@.river_link(cell as int, a),
{
    let seed_text: String = decimal_text(f.world_seed as i64);
    let cell_text: String = decimal_text(cell as i64);
    let a_text: String = decimal_text(a.ref_id as i64);
    let b_text: String = decimal_text(b.ref_id as i64);
    let parts: [&str; 5] = [
        seed_text.as_str(),
        "rlink",
        cell_text.as_str(),
        a_text.as_str(),
        b_text.as_str(),
    ];
    assert(part_views(parts@) =~= seq![
        decimal(f.world_seed as int),
        "rlink"@,
        decimal(cell as int),
        decimal(a.ref_id as int),
        decimal(b.ref_id as int),
    ]);
    Link { a, b, kind: Kind::River, feature_class, feature_id: feature_hash(&parts) }
}

fn is_channel(f: &RiverField<'_>, c: usize) -> (r: bool)
    requires
        f@.well_formed(),
        is_cell(f.size as int, c as int),
    ensures
        r == f@.is_channel(c as int),
{
    assert(cell_valid(f.cells@[c as int]));
    let here: Biome = biome(f.cells[c]);
    here != Biome::Ocean && here != Biome::Lake && f.area[c] >= 12 && 1000 * (f.area[c] as u64)
        >= 180 * (f.size as u64)
}

fn feeds(f: &RiverField<'_>, c: usize, k: usize) -> (r: Option<usize>)
    requires
        f@.well_formed(),
        is_cell(f.size as int, c as int),
        k < 4,
    ensures
        match r {
            Some(nb) => f@.feeds(c as int, k as int) && step(f.size as int, c as int, k as int)
                == Some(nb as int) && is_cell(f.size as int, nb as int) && adjacent(
                f.size as int,
                nb as int,
                c as int,
            ),
            None => !f@.feeds(c as int, k as int),
        },
{
    proof {
        lemma_side(f.size as int);
    }
    if let Some(nb) = neighbor(f.size, c, k) {
        if is_channel(f, nb) && f.receiver[nb] == c as i32 {
            proof {
                assert(adjacent(f.size as int, c as int, nb as int)) by {
                    assert(step(f.size as int, c as int, k as int) == Some(nb as int));
                }
                lemma_adjacent_symmetric(f.size as int, c as int, nb as int);
            }
            return Some(nb);
        }
    }
    None
}

/// Where the river of a flowing cell goes.
fn outflow(f: &RiverField<'_>, c: usize) -> (r: Endpoint)
    requires
        f@.well_formed(),
        is_cell(f.size as int, c as int),
        f.receiver@[c as int] >= 0,
    ensures
        r == f@.outflow(c as int),
{
    let down: usize = f.receiver[c] as usize;
    assert(cell_valid(f.cells@[down as int]));
    let there: Biome = biome(f.cells[down]);
    if there == Biome::Ocean {
        Endpoint::ocean()
    } else if there == Biome::Lake {
        Endpoint::lake(f.lake_id[down])
    } else {
        proof {
            lemma_adjacent_symmetric(f.size as int, down as int, c as int);
        }
        Endpoint::edge_port(edge_between(f.size, c, down), 0)
    }
}

/// Water height of a flowing cell.
fn river_z(f: &RiverField<'_>, c: usize) -> (r: i32)
    requires
        f@.well_formed(),
        is_cell(f.size as int, c as int),
        f.receiver@[c as int] >= 0,
    ensures
        r == f@.river_z(c as int),
{
    let down: usize = f.receiver[c] as usize;
    assert(cell_valid(f.cells@[down as int]));
    if biome(f.cells[down]) == Biome::Lake {
        f.lakes[f.lake_id[down] as usize].surface_z
    } else {
        elevation_to_metres(f.elev_code[c] as i32)
    }
}

/// The links of one flowing cell.
fn links_of_cell(f: &RiverField<'_>, c: usize) -> (r: Vec<Link>)
    requires
        f@.well_formed(),
        is_cell(f.size as int, c as int),
        f.receiver@[c as int] >= 0,
    ensures
        r@ == f@.cell_links(c as int),
{
    proof {
        lemma_side(f.size as int);
    }
    let out: Endpoint = outflow(f, c);
    let class: i32 = river_class(f.area[c]);
    let mut r: Vec<Link> = Vec::new();
    let mut k: usize = 0;
    while k < 4
        invariant
            k <= 4,
            f@.well_formed(),
            is_cell(f.size as int, c as int),
            c <= 2147395600,
            out == f@.outflow(c as int),
            class == f@.class_at(c as int),
            r@ == f@.inflow_links(c as int, k as nat),
        decreases 4 - k,
    {
        if let Some(nb) = feeds(f, c, k) {
            let a: Endpoint = Endpoint::edge_port(edge_between(f.size, nb, c), 0);
            r.push(make_river_link(f, c, a, out, class));
        }
        k += 1;
    }
    if r.len() == 0 {
        let spring: Endpoint = Endpoint::node(-1 - c as i32);
        r.push(make_river_link(f, c, spring, out, class));
        assert(r@ =~= f@.cell_links(c as int));
    }
    r
}

/// Visits the ports of one flowing cell, numbering the visits from `serial` on.
/// Returns the next number.
fn ports_of_cell(f: &RiverField<'_>, c: usize, serial: i32, ports: &mut FxHashMap<i32, Vec<Port>>)
    -> (r: i32)
    requires
        f@.well_formed(),
        is_cell(f.size as int, c as int),
        f.receiver@[c as int] >= 0,
        0 <= serial <= 1_000_000_000,
    ensures
        lists(final(ports)@) == after_visits(
            f.world_seed,
            f.size as int,
            lists(old(ports)@),
            f@.cell_visits(c as int, serial as int, 4),
        ),
        r == serial + f@.cell_visits(c as int, serial as int, 4).len(),
        r <= serial + 5,
{
    let ghost ports0 = lists(ports@);
    let ghost n = f.size as int;
    let ghost cc = c as int;
    proof {
        lemma_side(n);
    }
    let class: i32 = river_class(f.area[c]);
    let z: i32 = river_z(f, c);
    let down: usize = f.receiver[c] as usize;
    let mut next: i32 = serial;
    assert(cell_valid(f.cells@[down as int]));
    let there: Biome = biome(f.cells[down]);
    if there != Biome::Ocean && there != Biome::Lake {
        proof {
            lemma_adjacent_symmetric(n, down as int, cc);
            lemma_after_one_more(
                f.world_seed,
                n,
                ports0,
                Seq::empty(),
                PortVisit {
                    from: cc,
                    to: down as int,
                    class: class as int,
                    z: z as int,
                    serial: serial as int,
                },
            );
        }
        let _port: Port = ensure_river_port(f.world_seed, f.size, c, down, class, z, next, ports);
        next += 1;
        assert(f@.cell_visits(cc, serial as int, 0) =~= Seq::empty().push(
            PortVisit {
                from: cc,
                to: down as int,
                class: class as int,
                z: z as int,
                serial: serial as int,
            },
        ));
    }
    let mut k: usize = 0;
    while k < 4
        invariant
            k <= 4,
            f@.well_formed(),
            n == f.size,
            cc == c,
            is_cell(n, cc),
            class == f@.class_at(cc),
            z == f@.river_z(cc),
            0 <= serial <= 1_000_000_000,
            serial <= next <= serial + 1 + k,
            next == serial + f@.cell_visits(cc, serial as int, k as nat).len(),
            lists(ports@) == after_visits(
                f.world_seed,
                n,
                ports0,
                f@.cell_visits(cc, serial as int, k as nat),
            ),
        decreases 4 - k,
    {
        let ghost so_far = f@.cell_visits(cc, serial as int, k as nat);
        if let Some(nb) = feeds(f, c, k) {
            proof {
                lemma_after_one_more(
                    f.world_seed,
                    n,
                    ports0,
                    so_far,
                    PortVisit {
                        from: nb as int,
                        to: cc,
                        class: class as int,
                        z: z as int,
                        serial: next as int,
                    },
                );
            }
            let _port: Port = ensure_river_port(
                f.world_seed,
                f.size,
                nb,
                c,
                class,
                z,
                next,
                ports,
            );
            next += 1;
        }
        k += 1;
    }
    next
}

proof fn lemma_after_both(
    world_seed: i32,
    size: int,
    ports: Map<i32, Seq<Port>>,
    first: Seq<PortVisit>,
    second: Seq<PortVisit>,
)
    ensures
        after_visits(world_seed, size, ports, first + second) == after_visits(
            world_seed,
            size,
            after_visits(world_seed, size, ports, first),
            second,
        ),
    decreases second.len(),
{
    if second.len() == 0 {
        assert(first + second =~= first);
    } else {
        lemma_after_both(world_seed, size, ports, first, second.drop_last());
        assert((first + second).drop_last() =~= first + second.drop_last());
    }
}

/// The links of the graph after the river cells below `upto` added theirs.
pub open spec fn links_added(
    f: RiverView,
    links: Map<i32, Seq<Link>>,
    upto: nat,
) -> Map<i32, Seq<Link>>
    decreases upto,
{
    if upto == 0 {
        links
    } else {
        let before = links_added(f, links, (upto - 1) as nat);
        if f.flows(upto - 1) {
            before.insert(
                (upto - 1) as i32,
                list_at(before, (upto - 1) as i32) + f.cell_links(upto - 1),
            )
        } else {
            before
        }
    }
}

/// The graph after the rivers of a drained land were added to it.
#[verifier::opaque]
pub open spec fn rivers_added(
    f: RiverView,
    ports0: Map<i32, Seq<Port>>,
    links0: Map<i32, Seq<Link>>,
    ports: Map<i32, Seq<Port>>,
    links: Map<i32, Seq<Link>>,
) -> bool {
    &&& ports == after_visits(
        f.world_seed,
        f.size,
        ports0,
        f.all_visits((f.size * f.size) as nat),
    )
    &&& links == links_added(f, links0, (f.size * f.size) as nat)
}

/// Adds the ports and links of all rivers to a graph.
pub fn read_rivers(
    f: &RiverField<'_>,
    ports: &mut FxHashMap<i32, Vec<Port>>,
    links: &mut FxHashMap<i32, Vec<Link>>,
)
    requires
        f@.well_formed(),
    ensures
        rivers_added(
            f@,
            lists(old(ports)@),
            lists(old(links)@),
            lists(final(ports)@),
            lists(final(links)@),
        ),
        forall|c: int|
            is_cell(f.size as int, c) && !old(links)@.contains_key(c as i32) ==> (
            final(links)@.contains_key(c as i32) <==> cell_biome_id(f.cells@[c]) != 0
                && cell_biome_id(f.cells@[c]) != 8 && f.receiver@[c] >= 0 && #[trigger] f.area@[c]
                >= 12 && 1000 * f.area@[c] >= 180 * f.size),
{
    let ghost n = f.size as int;
    let ghost ports0 = lists(ports@);
    let ghost links0 = lists(links@);
    proof {
        lemma_side(n);
        assert(n * n <= 4096 * 4096) by (nonlinear_arith)
            requires
                1 <= n <= 4096,
        ;
    }
    let count: usize = f.size * f.size;
    let mut serial: i32 = 0;
    let mut c: usize = 0;
    while c < count
        invariant
            c <= count,
            n == f.size,
            count == n * n,
            count <= 16777216,
            f@.well_formed(),
            0 <= serial <= 5 * c,
            serial == f@.all_visits(c as nat).len(),
            lists(ports@) == after_visits(f.world_seed, n, ports0, f@.all_visits(c as nat)),
            lists(links@) == links_added(f@, links0, c as nat),
        decreases count - c,
    {
        if is_channel(f, c) && f.receiver[c] >= 0 {
            let ghost visits = f@.cell_visits(c as int, serial as int, 4);
            proof {
                lemma_after_both(f.world_seed, n, ports0, f@.all_visits(c as nat), visits);
            }
            let ghost links_b = lists(links@);
            let mut added: Vec<Link> = links_of_cell(f, c);
            let ghost added_g = added@;
            let mut list: Vec<Link> = match map_remove(links, c as i32) {
                Some(v) => v,
                None => Vec::new(),
            };
            assert(list@ == list_at(links_b, c as i32));
            list.append(&mut added);
            let ghost whole = list@;
            map_insert(links, c as i32, list);
            proof {
                assert(whole =~= list_at(links_b, c as i32) + added_g);
                assert(lists(links@) =~= links_b.insert(c as i32, whole));
            }
            serial = ports_of_cell(f, c, serial, ports);
        }
        c += 1;
    }
    proof {
        assert(rivers_added(f@, ports0, links0, lists(ports@), lists(links@))) by {
            reveal(rivers_added);
        }
        assert forall|c: int|
            is_cell(n, c) && !old(links)@.contains_key(c as i32) implies (links@.contains_key(
            c as i32,
        ) <==> cell_biome_id(f.cells@[c]) != 0 && cell_biome_id(f.cells@[c]) != 8 && f.receiver@[c]
            >= 0 && #[trigger] f.area@[c] >= 12 && 1000 * f.area@[c] >= 180 * f.size) by {
            law_rivers_run_where_enough_drains(
                f@,
                ports0,
                links0,
                lists(ports@),
                lists(links@),
                c,
            );
        }
    }
}

/// What draining makes of the land: the receivers, elevations and order are those of the
/// flood from all water, every cell is drained, its cells carry the new elevations, and
/// `area` is what drains through each.
#[verifier::opaque]
pub open spec fn land_drained(
    world_seed: i32,
    size: int,
    cells0: Seq<i32>,
    elev0: Seq<u8>,
    lake_id: Seq<i32>,
    lakes: Seq<Lake>,
    cells: Seq<i32>,
    elev: Seq<u8>,
    receiver: Seq<i32>,
    order: Seq<usize>,
    area: Seq<u32>,
) -> bool {
    &&& receiver == flooded(world_seed, size, cells0, elev0, lake_id, lakes).receiver
    &&& elev == flooded(world_seed, size, cells0, elev0, lake_id, lakes).elev
    &&& order == flooded(world_seed, size, cells0, elev0, lake_id, lakes).order
    &&& elev.len() == size * size
    &&& receiver.len() == size * size
    &&& forall|c: int|
        is_cell(size, c) ==> #[trigger] drained_cell(
            size,
            cells0,
            elev0,
            lake_id,
            lakes,
            elev,
            receiver,
            c,
        )
    &&& forall|y: int, c: int|
        is_cell(size, y) && is_cell(size, c) ==> #[trigger] receiver_lowest(
            size,
            elev,
            receiver,
            y,
            c,
        )
    &&& forall|y: int, c: int|
        #![trigger adjacent(size, y, c)]
        is_cell(size, y) && is_cell(size, c) && adjacent(size, y, c) && (wet(cells0, y)
            || receiver[y] >= 0) && !wet(cells0, c) ==> receiver[c] >= 0
    &&& drains_in_order(size, cells0, receiver, order)
    &&& cells == Seq::new(cells0.len(), |c: int| cell_raised(cells0[c], elev[c]))
    &&& areas_drained(size, cells0, receiver, order, area)
}

/// Rivers are determined: the same seed on the same land gives the same receivers,
/// elevations and drained areas, and adds the same ports and links.
pub proof fn law_same_seed_same_rivers(
    f: RiverView,
    g: RiverView,
    cells0: Seq<i32>,
    elev0: Seq<u8>,
    orders: (Seq<usize>, Seq<usize>),
    ports0: Map<i32, Seq<Port>>,
    links0: Map<i32, Seq<Link>>,
    ports: (Map<i32, Seq<Port>>, Map<i32, Seq<Port>>),
    links: (Map<i32, Seq<Link>>, Map<i32, Seq<Link>>),
)
    requires
        f.world_seed == g.world_seed,
        f.size == g.size,
        f.lake_id == g.lake_id,
        f.lakes == g.lakes,
        land_drained(
            f.world_seed,
            f.size,
            cells0,
            elev0,
            f.lake_id,
            f.lakes,
            f.cells,
            f.elev_code,
            f.receiver,
            orders.0,
            f.area,
        ),
        land_drained(
            g.world_seed,
            g.size,
            cells0,
            elev0,
            g.lake_id,
            g.lakes,
            g.cells,
            g.elev_code,
            g.receiver,
            orders.1,
            g.area,
        ),
        rivers_added(f, ports0, links0, ports.0, links.0),
        rivers_added(g, ports0, links0, ports.1, links.1),
    ensures
        f == g,
        orders.0 == orders.1,
        ports.0 == ports.1,
        links.0 == links.1,
{
    lemma_drained_exactly(f, cells0, elev0, orders.0);
    lemma_drained_exactly(g, cells0, elev0, orders.1);
    law_areas_are_determined(f.size, cells0, f.receiver, orders.0, f.area, g.area);
    assert(f == g);
    assert(ports.0 == ports.1 && links.0 == links.1) by {
        reveal(rivers_added);
    }
}

proof fn lemma_drained_exactly(
    f: RiverView,
    cells0: Seq<i32>,
    elev0: Seq<u8>,
    order: Seq<usize>,
)
    requires
        land_drained(
            f.world_seed,
            f.size,
            cells0,
            elev0,
            f.lake_id,
            f.lakes,
            f.cells,
            f.elev_code,
            f.receiver,
            order,
            f.area,
        ),
    ensures
        ({
            let end = flooded(f.world_seed, f.size, cells0, elev0, f.lake_id, f.lakes);
            &&& f.receiver == end.receiver
            &&& f.elev_code == end.elev
            &&& order == end.order
        }),
        f.cells == Seq::new(cells0.len(), |c: int| cell_raised(cells0[c], f.elev_code[c])),
        drains_in_order(f.size, cells0, f.receiver, order),
        areas_drained(f.size, cells0, f.receiver, order, f.area),
{
    reveal(land_drained);
}

/// Drains the land and adds its rivers to the graph.
pub fn build_rivers(
    world_seed: i32,
    size: usize,
    cells: &mut [i32],
    elev_code: &mut [u8],
    lake_id: &[i32],
    lakes: &[Lake],
    graph: &mut RiverGraph,
)
    requires
        side_ok(size as int),
        size <= 4096,
        water_known(size as int, old(cells)@, lake_id@, lakes@),
        old(elev_code)@.len() == size * size,
    ensures
        exists|order: Seq<usize>, area: Seq<u32>|
            #[trigger] land_drained(
                world_seed,
                size as int,
                old(cells)@,
                old(elev_code)@,
                lake_id@,
                lakes@,
                final(cells)@,
                final(elev_code)@,
                final(graph).receiver@,
                order,
                area,
            ) && rivers_added(
                (RiverView {
                    world_seed,
                    size: size as int,
                    cells: final(cells)@,
                    elev_code: final(elev_code)@,
                    lake_id: lake_id@,
                    lakes: lakes@,
                    receiver: final(graph).receiver@,
                    area,
                }),
                lists(old(graph).ports@),
                lists(old(graph).links@),
                lists(final(graph).ports@),
                lists(final(graph).links@),
            ) && forall|c: int|
                is_cell(size as int, c) && !old(graph).links@.contains_key(c as i32) ==> (
                final(graph).links@.contains_key(c as i32) <==> cell_biome_id(final(cells)@[c]) != 0
                    && cell_biome_id(final(cells)@[c]) != 8 && final(graph).receiver@[c] >= 0
                    && #[trigger] area[c] >= 12 && 1000 * area[c] >= 180 * size),
{
    let ghost ports0 = lists(graph.ports@);
    let ghost links0 = lists(graph.links@);
    let ghost cells0 = cells@;
    let ghost elev0 = elev_code@;
    let (receiver, order, area) = drain_land(world_seed, size, cells, elev_code, lake_id, lakes);
    let f = RiverField {
        world_seed,
        size,
        cells,
        elev_code,
        lake_id,
        lakes,
        receiver: receiver.as_slice(),
        area: area.as_slice(),
    };
    proof {
        lemma_field_drained(f@, cells0, elev0, order@);
    }
    read_rivers(&f, &mut graph.ports, &mut graph.links);
    let ghost field = f@;
    let ghost ports1 = lists(graph.ports@);
    let ghost links1 = lists(graph.links@);
    graph.receiver = receiver;
    proof {
        assert(rivers_added(field, ports0, links0, ports1, links1));
        assert(land_drained(
            world_seed,
            size as int,
            cells0,
            elev0,
            lake_id@,
            lakes@,
            cells@,
            elev_code@,
            graph.receiver@,
            order@,
            field.area,
        ));
        assert(field == RiverView {
            world_seed,
            size: size as int,
            cells: cells@,
            elev_code: elev_code@,
            lake_id: lake_id@,
            lakes: lakes@,
            receiver: graph.receiver@,
            area: field.area,
        });
    }
}

proof fn lemma_field_drained(f: RiverView, cells0: Seq<i32>, elev0: Seq<u8>, order: Seq<usize>)
    requires
        side_ok(f.size),
        f.size <= 4096,
        water_known(f.size, cells0, f.lake_id, f.lakes),
        land_drained(
            f.world_seed,
            f.size,
            cells0,
            elev0,
            f.lake_id,
            f.lakes,
            f.cells,
            f.elev_code,
            f.receiver,
            order,
            f.area,
        ),
    ensures
        f.well_formed(),
{
    reveal(land_drained);
    let n = f.size;
    assert forall|c: int| is_cell(n, c) && #[trigger] f.receiver[c] >= 0 implies is_cell(
        n,
        f.receiver[c] as int,
    ) && adjacent(n, f.receiver[c] as int, c) by {
        assert(drained_cell(
            n,
            cells0,
            elev0,
            f.lake_id,
            f.lakes,
            f.elev_code,
            f.receiver,
            c,
        ));
    }
    assert forall|c: int| is_cell(n, c) implies cell_valid(#[trigger] f.cells[c]) && cell_biome_id(
        f.cells[c],
    ) == cell_biome_id(cells0[c]) by {
        lemma_raised_biome(cells0[c], f.elev_code[c]);
    }
    assert forall|c: int| is_cell(n, c) && cell_biome_id(#[trigger] f.cells[c]) == 8 implies 0
        <= f.lake_id[c] < f.lakes.len() && 0 <= f.lakes[f.lake_id[c] as int].surface_code
        <= 255 by {
        assert(cell_biome_id(cells0[c]) == 8);
    }
}

/// Drains the land: each cell's receiver, the draining cells in order, and the
/// area that drains through each cell.
pub fn drain_land(
    world_seed: i32,
    size: usize,
    cells: &mut [i32],
    elev_code: &mut [u8],
    lake_id: &[i32],
    lakes: &[Lake],
) -> (r: (Vec<i32>, Vec<usize>, Vec<u32>))
    requires
        side_ok(size as int),
        water_known(size as int, old(cells)@, lake_id@, lakes@),
        old(elev_code)@.len() == size * size,
    ensures
        land_drained(
            world_seed,
            size as int,
            old(cells)@,
            old(elev_code)@,
            lake_id@,
            lakes@,
            final(cells)@,
            final(elev_code)@,
            r.0@,
            r.1@,
            r.2@,
        ),
{
    let ghost n = size as int;
    let ghost cells0 = cells@;
    let ghost elev0 = elev_code@;
    proof {
        lemma_side(n);
    }
    let count: usize = size * size;
    let mut receiver: Vec<i32> = vec![-1; count];
    let order: Vec<usize> = priority_flood_fill(
        world_seed,
        size,
        cells,
        elev_code,
        lake_id,
        lakes,
        receiver.as_mut_slice(),
    );
    proof {
        assert forall|c: int| is_cell(n, c) implies #[trigger] receiver@[c] < n * n by {
            assert(drained_cell(n, cells0, elev0, lake_id@, lakes@, elev_code@, receiver@, c));
        }
    }
    let area: Vec<u32> = drain_areas(size, cells, receiver.as_slice(), &order);
    rewrite_cell_elevations(cells, elev_code);
    proof {
        reveal(land_drained);
    }
    (receiver, order, area)
}

} // verus!
