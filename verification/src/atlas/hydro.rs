//! Drawn water and roads: where a reach ends and how high, what a cell's map shows, and
//! which cells a line is listed under.

use crate::atlas::biomes::{is_water, is_water_biome, Biome};
use crate::atlas::cell_map::{list_at, map_get};
use crate::atlas::continent::ContinentAtlas;
use crate::atlas::features::{dir_delta, edge_owner, Dir, EndpointKind, Kind};
use crate::atlas::grid::{cell_number, inside, is_cell, lemma_side, side_ok};
use crate::atlas::pack::{
    biome, cell_biome, cell_elevation, cell_valid, code_metres, elevation, elevation_to_metres,
    lemma_cell_biome,
};
use crate::atlas::types::{Endpoint, Lake, Link, Port};
use crate::text::{decimal, owned, push_count, push_decimal};
use vstd::prelude::*;

verus! {

/// What a reach drains into.
#[derive(Clone, Copy, Debug, PartialEq, Eq, Structural)]
pub enum HydroSink {
    Ocean,
    Lake { lake_id: i32 },
}

/// The water an endpoint is.
pub open spec fn sink_of(e: Endpoint) -> Option<HydroSink> {
    match e.kind {
        EndpointKind::Ocean => Some(HydroSink::Ocean),
        EndpointKind::Lake => Some(HydroSink::Lake { lake_id: e.ref_id }),
        _ => None,
    }
}

/// The water a link ends in: the first of its two ends that is water, nothing where it
/// runs on.
pub open spec fn link_water(l: Link) -> Option<HydroSink> {
    match sink_of(l.a) {
        Some(s) => Some(s),
        None => sink_of(l.b),
    }
}

fn endpoint_water(e: Endpoint) -> (r: Option<HydroSink>)
    ensures
        r == sink_of(e),
{
    match e.kind {
        EndpointKind::Ocean => Some(HydroSink::Ocean),
        EndpointKind::Lake => Some(HydroSink::Lake { lake_id: e.ref_id }),
        EndpointKind::EdgePort | EndpointKind::Node => None,
    }
}

/// What a link drains into; one that runs on is bound for the ocean.
pub fn link_sink(l: &Link) -> (r: HydroSink)
    ensures
        r == match link_water(*l) {
            Some(s) => s,
            None => HydroSink::Ocean,
        },
{
    match endpoint_water(l.a) {
        Some(s) => s,
        None => match endpoint_water(l.b) {
            Some(s) => s,
            None => HydroSink::Ocean,
        },
    }
}

/// Whether a link ends in the ocean, and the lake it ends in.
pub fn sink_flags(l: &Link) -> (r: (bool, Option<i32>))
    ensures
        r == match link_water(*l) {
            Some(HydroSink::Ocean) => (true, None::<i32>),
            Some(HydroSink::Lake { lake_id }) => (false, Some(lake_id)),
            None => (false, None::<i32>),
        },
{
    let first: Option<HydroSink> = match endpoint_water(l.a) {
        Some(s) => Some(s),
        None => endpoint_water(l.b),
    };
    match first {
        Some(HydroSink::Ocean) => (true, None),
        Some(HydroSink::Lake { lake_id }) => (false, Some(lake_id)),
        None => (false, None),
    }
}

/// The edge and port an endpoint lies on.
pub open spec fn port_key(e: Endpoint) -> Option<(i32, i32)> {
    match e.kind {
        EndpointKind::EdgePort => Some((e.ref_id, e.port_id)),
        _ => None,
    }
}

pub fn edge_port_key(e: Endpoint) -> (r: Option<(i32, i32)>)
    ensures
        r == port_key(e),
{
    match e.kind {
        EndpointKind::EdgePort => Some((e.ref_id, e.port_id)),
        EndpointKind::Ocean | EndpointKind::Lake | EndpointKind::Node => None,
    }
}

/// Half the width of a river by its class, in metres.
pub open spec fn half_width_of(class: int) -> int {
    if class <= 1 {
        10
    } else if class == 2 {
        16
    } else if class == 3 {
        24
    } else {
        34
    }
}

pub fn half_width_for_class(class: i32) -> (r: i32)
    ensures
        r == half_width_of(class as int),
{
    if class <= 1 {
        10
    } else if class == 2 {
        16
    } else if class == 3 {
        24
    } else {
        34
    }
}

/// Half the width a river is drawn with inside a cell, in metres.
pub open spec fn drawn_half_width_of(class: int) -> int {
    if class <= 1 {
        12
    } else if class == 2 {
        20
    } else if class == 3 {
        30
    } else {
        42
    }
}

pub fn drawn_half_width(class: i32) -> (r: i32)
    ensures
        r == drawn_half_width_of(class as int),
{
    if class <= 1 {
        12
    } else if class == 2 {
        20
    } else if class == 3 {
        30
    } else {
        42
    }
}

/// A word stirred from three.
pub open spec fn stirred_word(a: u32, b: u32, c: u32) -> u32 {
    let x = a.wrapping_mul(0x9E37_79B9).wrapping_add(b).wrapping_mul(0x85EB_CA6B).wrapping_add(c);
    let y = x ^ (x >> 16);
    let z = y.wrapping_mul(0x7FEB_352D);
    z ^ (z >> 15)
}

pub fn hash_u32(a: u32, b: u32, c: u32) -> (r: u32)
    ensures
        r == stirred_word(a, b, c),
{
    let x: u32 = a.wrapping_mul(0x9E37_79B9).wrapping_add(b).wrapping_mul(0x85EB_CA6B)
        .wrapping_add(c);
    let y: u32 = x ^ (x >> 16);
    let z: u32 = y.wrapping_mul(0x7FEB_352D);
    z ^ (z >> 15)
}

/// The word of a corridor sample, to be read as a share of the greatest word.
pub fn hash_unit_word(a: u32, b: u32, c: u32, d: u32) -> (r: u32)
    ensures
        r == stirred_word(a ^ d.wrapping_mul(0x27D4_EB2D), b, c),
{
    hash_u32(a ^ d.wrapping_mul(0x27D4_EB2D), b, c)
}

/// The place of the first port from `from` on with an id.
pub open spec fn port_at(ports: Seq<Port>, id: i32, from: int) -> Option<int>
    decreases ports.len() - from,
{
    if from < 0 || from >= ports.len() {
        None
    } else if ports[from].id == id {
        Some(from)
    } else {
        port_at(ports, id, from + 1)
    }
}

fn find_port(ports: &[Port], id: i32) -> (r: Option<usize>)
    ensures
        match port_at(ports@, id, 0) {
            Some(i) => r is Some && r->0 == i && 0 <= i < ports@.len(),
            None => r is None,
        },
{
    let mut i: usize = 0;
    while i < ports.len()
        invariant
            i <= ports@.len(),
            port_at(ports@, id, 0) == port_at(ports@, id, i as int),
        decreases ports@.len() - i,
    {
        if ports[i].id == id {
            return Some(i);
        }
        i += 1;
    }
    None
}

/// The surface of the first lake from `from` on with an id.
pub open spec fn lake_surface(lakes: Seq<Lake>, id: i32, from: int) -> Option<i32>
    decreases lakes.len() - from,
{
    if from < 0 || from >= lakes.len() {
        None
    } else if lakes[from].id == id {
        Some(lakes[from].surface_z)
    } else {
        lake_surface(lakes, id, from + 1)
    }
}

impl ContinentAtlas {
    /// The ground of a cell in metres.
    pub open spec fn ground_z(&self, ax: int, az: int) -> int {
        code_metres(cell_elevation(self.cell(ax, az)) as int)
    }

    /// How high the water of a river stands at an endpoint in a cell, in metres: the
    /// sea's, the lake's or the port's surface, else the ground of the cell.
    pub open spec fn sheet_z(&self, e: Endpoint, ax: int, az: int) -> int {
        match e.kind {
            EndpointKind::Ocean => self.sea_surface_z as int,
            EndpointKind::Lake => match lake_surface(self.lakes@, e.ref_id, 0) {
                Some(z) => z as int,
                None => self.sea_surface_z as int,
            },
            EndpointKind::EdgePort => {
                let ports = list_at(self.ports(Kind::River), e.ref_id);
                match port_at(ports, e.port_id, 0) {
                    Some(i) => ports[i].surface_z as int,
                    None => self.ground_z(ax, az),
                }
            },
            EndpointKind::Node => self.ground_z(ax, az),
        }
    }

    fn cell_ground_z(&self, ax: i32, az: i32) -> (r: i32)
        requires
            self.grid_ok(),
            inside(self.size as int, ax as int, az as int),
        ensures
            r == self.ground_z(ax as int, az as int),
    {
        elevation_to_metres(elevation(self.cell_at(ax, az)))
    }

    /// How high the water of a river stands at an endpoint in a cell.
    pub fn sheet_for_endpoint(&self, e: Endpoint, ax: i32, az: i32) -> (r: i32)
        requires
            self.grid_ok(),
            inside(self.size as int, ax as int, az as int),
        ensures
            r == self.sheet_z(e, ax as int, az as int),
    {
        match e.kind {
            EndpointKind::Ocean => self.sea_surface_z,
            EndpointKind::Lake => {
                let mut i: usize = 0;
                while i < self.lakes.len()
                    invariant
                        i <= self.lakes@.len(),
                        e.kind == EndpointKind::Lake,
                        lake_surface(self.lakes@, e.ref_id, 0) == lake_surface(
                            self.lakes@,
                            e.ref_id,
                            i as int,
                        ),
                    decreases self.lakes@.len() - i,
                {
                    if self.lakes[i].id == e.ref_id {
                        return self.lakes[i].surface_z;
                    }
                    i += 1;
                }
                self.sea_surface_z
            },
            EndpointKind::EdgePort => {
                match map_get(&self.river_ports, e.ref_id) {
                    Some(ports) => match find_port(ports.as_slice(), e.port_id) {
                        Some(i) => ports[i].surface_z,
                        None => self.cell_ground_z(ax, az),
                    },
                    None => self.cell_ground_z(ax, az),
                }
            },
            EndpointKind::Node => self.cell_ground_z(ax, az),
        }
    }

    /// Whether the cell on a side of `(ax, az)` has a biome; beyond the grid there is
    /// ocean.
    pub open spec fn faces(&self, ax: int, az: int, dir: Dir, b: Biome) -> bool {
        let nx = ax + dir_delta(dir).0;
        let nz = az + dir_delta(dir).1;
        if inside(self.size as int, nx, nz) {
            cell_biome(self.cell(nx, nz)) == b
        } else {
            b == Biome::Ocean
        }
    }

    /// The first side, east, south, west, north, on which a cell faces a biome.
    pub open spec fn side_facing(&self, ax: int, az: int, b: Biome) -> Option<Dir> {
        if self.faces(ax, az, Dir::East, b) {
            Some(Dir::East)
        } else if self.faces(ax, az, Dir::South, b) {
            Some(Dir::South)
        } else if self.faces(ax, az, Dir::West, b) {
            Some(Dir::West)
        } else if self.faces(ax, az, Dir::North, b) {
            Some(Dir::North)
        } else {
            None
        }
    }

    fn side_is(&self, ax: i32, az: i32, dir: Dir, b: Biome) -> (r: bool)
        requires
            self.grid_ok(),
            inside(self.size as int, ax as int, az as int),
        ensures
            r == self.faces(ax as int, az as int, dir, b),
    {
        proof {
            lemma_side(self.size as int);
        }
        let d: (i32, i32) = dir.delta();
        let nx: i32 = ax + d.0;
        let nz: i32 = az + d.1;
        if self.in_bounds(nx, nz) {
            let at: usize = self.index_of(nx, nz);
            assert(cell_valid(self.cells@[at as int]));
            proof {
                lemma_cell_biome(self.cells@[at as int]);
            }
            biome(self.cells[at]) == b
        } else {
            b == Biome::Ocean
        }
    }

    /// The side of a cell that faces water of a kind.
    pub fn water_side(&self, ax: i32, az: i32, b: Biome) -> (r: Option<Dir>)
        requires
            self.grid_ok(),
            inside(self.size as int, ax as int, az as int),
        ensures
            r == self.side_facing(ax as int, az as int, b),
    {
        if self.side_is(ax, az, Dir::East, b) {
            Some(Dir::East)
        } else if self.side_is(ax, az, Dir::South, b) {
            Some(Dir::South)
        } else if self.side_is(ax, az, Dir::West, b) {
            Some(Dir::West)
        } else if self.side_is(ax, az, Dir::North, b) {
            Some(Dir::North)
        } else {
            None
        }
    }

    /// Whether a cell holds water; beyond the grid there is water.
    pub open spec fn watery(&self, ax: int, az: int) -> bool {
        if inside(self.size as int, ax, az) {
            is_water_biome(cell_biome(self.cell(ax, az)))
        } else {
            true
        }
    }

    pub fn cell_is_water_biome(&self, ax: i32, az: i32) -> (r: bool)
        requires
            self.grid_ok(),
        ensures
            r == self.watery(ax as int, az as int),
    {
        if !self.in_bounds(ax, az) {
            return true;
        }
        let at: usize = self.index_of(ax, az);
        assert(cell_valid(self.cells@[at as int]));
        proof {
            lemma_cell_biome(self.cells@[at as int]);
        }
        is_water(biome(self.cells[at]))
    }

    /// Whether land lies on a side of a cell.
    pub open spec fn land_beside(&self, ax: int, az: int) -> bool {
        ||| !self.watery(ax + 1, az)
        ||| !self.watery(ax - 1, az)
        ||| !self.watery(ax, az + 1)
        ||| !self.watery(ax, az - 1)
    }

    pub fn touches_land(&self, ax: i32, az: i32) -> (r: bool)
        requires
            self.grid_ok(),
            inside(self.size as int, ax as int, az as int),
        ensures
            r == self.land_beside(ax as int, az as int),
    {
        proof {
            lemma_side(self.size as int);
        }
        !self.cell_is_water_biome(ax + 1, az) || !self.cell_is_water_biome(ax - 1, az)
            || !self.cell_is_water_biome(ax, az + 1) || !self.cell_is_water_biome(ax, az - 1)
    }

    /// Whether water lies on a side or at a corner of a cell.
    pub open spec fn water_around(&self, ax: int, az: int) -> bool {
        exists|dx: int, dz: int|
            -1 <= dx <= 1 && -1 <= dz <= 1 && (dx != 0 || dz != 0) && #[trigger] self.watery(
                ax + dx,
                az + dz,
            )
    }

    pub fn touches_water(&self, ax: i32, az: i32) -> (r: bool)
        requires
            self.grid_ok(),
            inside(self.size as int, ax as int, az as int),
        ensures
            r == self.water_around(ax as int, az as int),
    {
        proof {
            lemma_side(self.size as int);
        }
        let mut dz: i32 = -1;
        while dz <= 1
            invariant
                -1 <= dz <= 2,
                self.grid_ok(),
                self.size <= 46340,
                inside(self.size as int, ax as int, az as int),
                forall|i: int, j: int|
                    -1 <= i <= 1 && -1 <= j < dz && (i != 0 || j != 0) ==> !#[trigger] self.watery(
                        ax + i,
                        az + j,
                    ),
            decreases 2 - dz,
        {
            let mut dx: i32 = -1;
            while dx <= 1
                invariant
                    -1 <= dx <= 2,
                    -1 <= dz <= 1,
                    self.grid_ok(),
                    self.size <= 46340,
                    inside(self.size as int, ax as int, az as int),
                    forall|i: int, j: int|
                        -1 <= i <= 1 && -1 <= j < dz && (i != 0 || j != 0)
                            ==> !#[trigger] self.watery(ax + i, az + j),
                    forall|i: int|
                        -1 <= i < dx && (i != 0 || dz != 0) ==> !#[trigger] self.watery(
                            ax + i,
                            az + dz,
                        ),
                decreases 2 - dx,
            {
                if dx != 0 || dz != 0 {
                    if self.cell_is_water_biome(ax + dx, az + dz) {
                        assert(self.watery(ax + dx, az + dz));
                        return true;
                    }
                }
                dx += 1;
            }
            dz += 1;
        }
        false
    }
}

/// Where in its cell an endpoint lies.
#[derive(Clone, Copy, Debug, PartialEq, Eq, Structural)]
pub enum Place {
    Centre,
    /// The middle of a side.
    Side(Dir),
    /// On the east side of a cell, as far down as the port says; halfway without one.
    East { ox: i32, oz: i32, port: Option<Port> },
    /// On the south side of a cell, as far along as the port says.
    South { ox: i32, oz: i32, port: Option<Port> },
}

/// Where a port lies.
pub open spec fn port_place(key: i32, port: Option<Port>) -> Place {
    if (key >> 24) & 0xF == 0 {
        Place::East { ox: key & 0xFFF, oz: (key >> 12) & 0xFFF, port }
    } else if (key >> 24) & 0xF == 1 {
        Place::South { ox: key & 0xFFF, oz: (key >> 12) & 0xFFF, port }
    } else {
        Place::Centre
    }
}

/// The port with an id in a list.
pub open spec fn port_in(ports: Seq<Port>, id: i32) -> Option<Port> {
    match port_at(ports, id, 0) {
        Some(i) => Some(ports[i]),
        None => None,
    }
}

/// Whose ports and mouths are drawn.
#[derive(Clone, Copy, Debug, PartialEq, Eq, Structural)]
pub enum Layer {
    /// The rivers' own.
    Rivers,
    /// The roads' own; a road has no mouth.
    Roads,
    /// A cell's map: the rivers' ports where an edge lists any, else the roads'.
    Overlay,
}

impl ContinentAtlas {
    /// The ports of an edge on a layer.
    pub open spec fn layer_ports(&self, layer: Layer, key: i32) -> Seq<Port> {
        match layer {
            Layer::Rivers => list_at(self.ports(Kind::River), key),
            Layer::Roads => list_at(self.ports(Kind::Road), key),
            Layer::Overlay => if self.ports(Kind::River).contains_key(key) {
                self.ports(Kind::River)[key]
            } else {
                list_at(self.ports(Kind::Road), key)
            },
        }
    }

    /// Where an endpoint in a cell lies: water at the side that faces it, a port on
    /// its edge, anything else in the middle.
    pub open spec fn place_of(&self, layer: Layer, e: Endpoint, ax: int, az: int) -> Place {
        match e.kind {
            EndpointKind::Ocean => if layer == Layer::Roads {
                Place::Centre
            } else {
                match self.side_facing(ax, az, Biome::Ocean) {
                    Some(d) => Place::Side(d),
                    None => Place::Centre,
                }
            },
            EndpointKind::Lake => if layer == Layer::Roads {
                Place::Centre
            } else {
                match self.side_facing(ax, az, Biome::Lake) {
                    Some(d) => Place::Side(d),
                    None => Place::Centre,
                }
            },
            EndpointKind::Node => Place::Centre,
            EndpointKind::EdgePort => port_place(
                e.ref_id,
                port_in(self.layer_ports(layer, e.ref_id), e.port_id),
            ),
        }
    }

    fn mouth_place(&self, layer: Layer, ax: i32, az: i32, b: Biome) -> (r: Place)
        requires
            self.grid_ok(),
            inside(self.size as int, ax as int, az as int),
        ensures
            r == if layer == Layer::Roads {
                Place::Centre
            } else {
                match self.side_facing(ax as int, az as int, b) {
                    Some(d) => Place::Side(d),
                    None => Place::Centre,
                }
            },
    {
        if layer == Layer::Roads {
            return Place::Centre;
        }
        match self.water_side(ax, az, b) {
            Some(d) => Place::Side(d),
            None => Place::Centre,
        }
    }

    fn ports_of_layer(&self, layer: Layer, key: i32) -> (r: &[Port])
        ensures
            r@ == self.layer_ports(layer, key),
    {
        let first: Option<&Vec<Port>> = match layer {
            Layer::Roads => map_get(&self.road_ports, key),
            Layer::Rivers | Layer::Overlay => map_get(&self.river_ports, key),
        };
        match first {
            Some(v) => v.as_slice(),
            None => {
                if layer == Layer::Overlay {
                    match map_get(&self.road_ports, key) {
                        Some(v) => v.as_slice(),
                        None => &[],
                    }
                } else {
                    &[]
                }
            },
        }
    }

    /// Where an endpoint in a cell lies. The key of a port names a side.
    pub fn endpoint_place(&self, layer: Layer, e: Endpoint, ax: i32, az: i32) -> (r: Place)
        requires
            self.grid_ok(),
            inside(self.size as int, ax as int, az as int),
            e.kind == EndpointKind::EdgePort ==> (e.ref_id >> 24) & 0xF < 4,
        ensures
            r == self.place_of(layer, e, ax as int, az as int),
    {
        match e.kind {
            EndpointKind::Ocean => self.mouth_place(layer, ax, az, Biome::Ocean),
            EndpointKind::Lake => self.mouth_place(layer, ax, az, Biome::Lake),
            EndpointKind::Node => Place::Centre,
            EndpointKind::EdgePort => {
                let ports: &[Port] = self.ports_of_layer(layer, e.ref_id);
                let port: Option<Port> = match find_port(ports, e.port_id) {
                    Some(i) => Some(ports[i]),
                    None => None,
                };
                let owner: (i32, i32, Dir) = edge_owner(e.ref_id);
                match owner.2 {
                    Dir::East => Place::East { ox: owner.0, oz: owner.1, port },
                    Dir::South => Place::South { ox: owner.0, oz: owner.1, port },
                    Dir::West | Dir::North => Place::Centre,
                }
            },
        }
    }
}

/// Whether two links join the same two endpoints, whichever way round.
pub open spec fn same_ends(a: Link, b: Link) -> bool {
    (a.a == b.a && a.b == b.b) || (a.a == b.b && a.b == b.a)
}

/// Whether link `i` is kept: none that joins the same ends has a smaller class, and
/// none before it an equal one.
pub open spec fn kept_link(links: Seq<Link>, i: int) -> bool {
    forall|j: int|
        0 <= j < links.len() && same_ends(#[trigger] links[j], links[i]) ==> {
            &&& links[i].feature_class <= links[j].feature_class
            &&& j < i ==> links[i].feature_class < links[j].feature_class
        }
}

/// The links of a cell with only the best of those that join the same ends: the
/// smallest class, the first of equals.
pub fn unique_links(links: &[Link]) -> (kept: Vec<usize>)
    ensures
        forall|k: int|
            0 <= k < kept@.len() ==> (#[trigger] kept@[k]) < links@.len() && kept_link(
                links@,
                kept@[k] as int,
            ),
        forall|k: int, l: int|
            0 <= k < l < kept@.len() ==> #[trigger] kept@[k] < #[trigger] kept@[l],
        forall|i: int|
            0 <= i < links@.len() && kept_link(links@, i) ==> exists|k: int|
                0 <= k < kept@.len() && #[trigger] kept@[k] == i,
{
    let mut kept: Vec<usize> = Vec::new();
    let mut i: usize = 0;
    while i < links.len()
        invariant
            i <= links@.len(),
            forall|k: int|
                0 <= k < kept@.len() ==> (#[trigger] kept@[k]) < i && kept_link(
                    links@,
                    kept@[k] as int,
                ),
            forall|k: int, l: int|
                0 <= k < l < kept@.len() ==> #[trigger] kept@[k] < #[trigger] kept@[l],
            forall|m: int|
                0 <= m < i && kept_link(links@, m) ==> exists|k: int|
                    0 <= k < kept@.len() && #[trigger] kept@[k] == m,
        decreases links@.len() - i,
    {
        let mut best: bool = true;
        let mut j: usize = 0;
        while j < links.len()
            invariant
                j <= links@.len(),
                i < links@.len(),
                best == forall|m: int|
                    0 <= m < j && same_ends(#[trigger] links@[m], links@[i as int]) ==> {
                        &&& links@[i as int].feature_class <= links@[m].feature_class
                        &&& m < i ==> links@[i as int].feature_class < links@[m].feature_class
                    },
            decreases links@.len() - j,
        {
            let x: Link = links[i];
            let y: Link = links[j];
            let same: bool = (y.a == x.a && y.b == x.b) || (y.a == x.b && y.b == x.a);
            let loses: bool = same && (x.feature_class > y.feature_class || (j < i
                && x.feature_class == y.feature_class));
            if loses {
                assert(same_ends(links@[j as int], links@[i as int]));
                best = false;
            }
            j += 1;
        }
        assert(best == kept_link(links@, i as int));
        let ghost was = kept@;
        if best {
            kept.push(i);
            assert(kept@[kept@.len() - 1] == i);
        }
        assert forall|m: int| 0 <= m < i + 1 && kept_link(links@, m) implies exists|k: int|
            0 <= k < kept@.len() && #[trigger] kept@[k] == m by {
            if m < i {
                let k = choose|k: int| 0 <= k < was.len() && #[trigger] was[k] == m;
                assert(kept@[k] == m);
            } else {
                assert(kept@[kept@.len() - 1] == m);
            }
        }
        i += 1;
    }
    kept
}

/// No two kept links join the same ends.
pub proof fn law_kept_links_differ(links: Seq<Link>, i: int, j: int)
    requires
        0 <= i < j < links.len(),
        kept_link(links, i),
        kept_link(links, j),
    ensures
        !same_ends(links[i], links[j]),
{
    if same_ends(links[i], links[j]) {
        assert(same_ends(links[j], links[i]));
    }
}

/// A list of ids with one more, unless it is there.
pub open spec fn with_id(list: Seq<u32>, id: u32) -> Seq<u32> {
    if list.contains(id) {
        list
    } else {
        list.push(id)
    }
}

/// A block of cells: columns `x0` to `x1`, rows `z0` to `z1`, both with.
#[derive(Clone, Copy, Debug, PartialEq, Eq, Structural)]
pub struct CellBlock {
    pub x0: i32,
    pub x1: i32,
    pub z0: i32,
    pub z1: i32,
}

pub open spec fn in_block(b: CellBlock, ax: int, az: int) -> bool {
    b.x0 <= ax <= b.x1 && b.z0 <= az <= b.z1
}

fn has_id(list: &Vec<u32>, id: u32) -> (r: bool)
    ensures
        r == list@.contains(id),
{
    let mut i: usize = 0;
    while i < list.len()
        invariant
            i <= list@.len(),
            forall|j: int| 0 <= j < i ==> list@[j] != id,
        decreases list@.len() - i,
    {
        if list[i] == id {
            assert(list@[i as int] == id);
            return true;
        }
        i += 1;
    }
    false
}

/// Lists an id under every cell of the grid that lies in a block.
pub fn stamp_cells(index: &mut Vec<Vec<u32>>, size: usize, id: u32, b: CellBlock)
    requires
        side_ok(size as int),
        old(index)@.len() == size * size,
    ensures
        final(index)@.len() == size * size,
        forall|c: int|
            is_cell(size as int, c) ==> (#[trigger] final(index)@[c])@ == if in_block(
                b,
                c % (size as int),
                c / (size as int),
            ) {
                with_id(old(index)@[c]@, id)
            } else {
                old(index)@[c]@
            },
{
    let ghost was = index@;
    let n: usize = index.len();
    proof {
        lemma_side(size as int);
    }
    let mut c: usize = 0;
    while c < n
        invariant
            c <= n,
            n == size * size,
            0 < size <= 46340,
            index@.len() == n,
            was.len() == n,
            forall|k: int|
                0 <= k < c ==> (#[trigger] index@[k])@ == if in_block(
                    b,
                    k % (size as int),
                    k / (size as int),
                ) {
                    with_id(was[k]@, id)
                } else {
                    was[k]@
                },
            forall|k: int| c <= k < n ==> #[trigger] index@[k] == was[k],
        decreases n - c,
    {
        let ax: i32 = (c % size) as i32;
        proof {
            assert(c / size < size) by (nonlinear_arith)
                requires
                    c < size * size,
                    0 < size,
            ;
        }
        let az: i32 = (c / size) as i32;
        if b.x0 <= ax && ax <= b.x1 && b.z0 <= az && az <= b.z1 {
            let mut list: Vec<u32> = Vec::new();
            std::mem::swap(&mut list, &mut index[c]);
            if !has_id(&list, id) {
                list.push(id);
            }
            index.set(c, list);
        }
        c += 1;
    }
}

/// What a sample of the surface turned out to be.
#[derive(Clone, Copy, Debug, PartialEq, Eq, Structural)]
pub enum WaterBody {
    Ocean,
    River,
    Lake { id: i32 },
    Pond,
}

/// The water a cell's map is tinted by.
#[derive(Clone, Copy, Debug, PartialEq, Eq, Structural)]
pub enum WaterBodyKind {
    Ocean,
    Lake { lake_id: i32 },
    River,
}

/// How many of the first `n` samples are a body.
pub open spec fn samples_of(columns: Seq<Option<WaterBody>>, b: WaterBody, n: nat) -> nat
    decreases n,
{
    if n == 0 {
        0
    } else {
        samples_of(columns, b, (n - 1) as nat) + if columns[n - 1] == Some(b) {
            1nat
        } else {
            0nat
        }
    }
}

/// Whether a lake has the most samples of all lakes, the greatest id of equals.
pub open spec fn best_lake(columns: Seq<Option<WaterBody>>, id: i32) -> bool {
    let n = columns.len();
    &&& samples_of(columns, WaterBody::Lake { id }, n) > 0
    &&& forall|other: i32|
        {
            let theirs = #[trigger] samples_of(columns, WaterBody::Lake { id: other }, n);
            let ours = samples_of(columns, WaterBody::Lake { id }, n);
            theirs < ours || (theirs == ours && other <= id)
        }
}

fn count_samples(columns: &[Option<WaterBody>], b: WaterBody) -> (r: usize)
    ensures
        r == samples_of(columns@, b, columns@.len()),
        r <= columns@.len(),
{
    let mut n: usize = 0;
    let mut i: usize = 0;
    while i < columns.len()
        invariant
            i <= columns@.len(),
            n <= i,
            n == samples_of(columns@, b, i as nat),
        decreases columns@.len() - i,
    {
        match columns[i] {
            Some(x) => {
                if x == b {
                    n += 1;
                }
            },
            None => {},
        }
        i += 1;
    }
    n
}

proof fn lemma_sampled(columns: Seq<Option<WaterBody>>, b: WaterBody, n: nat)
    requires
        n <= columns.len(),
        samples_of(columns, b, n) > 0,
    ensures
        exists|i: int| 0 <= i < n && columns[i] == Some(b),
    decreases n,
{
    if columns[n - 1] == Some(b) {
        assert(columns[n - 1] == Some(b));
    } else {
        lemma_sampled(columns, b, (n - 1) as nat);
        let i = choose|i: int| 0 <= i < n - 1 && columns[i] == Some(b);
        assert(columns[i] == Some(b));
    }
}

/// The lake with the most samples.
fn most_sampled_lake(columns: &[Option<WaterBody>]) -> (r: Option<(i32, usize)>)
    ensures
        match r {
            Some((id, n)) => best_lake(columns@, id) && n == samples_of(
                columns@,
                WaterBody::Lake { id },
                columns@.len(),
            ),
            None => forall|id: i32| #[trigger]
                samples_of(columns@, WaterBody::Lake { id }, columns@.len()) == 0,
        },
{
    let ghost all = columns@;
    let mut best: Option<(i32, usize)> = None;
    let mut i: usize = 0;
    while i < columns.len()
        invariant
            i <= columns@.len(),
            all == columns@,
            match best {
                Some((id, n)) => {
                    &&& n == samples_of(all, WaterBody::Lake { id }, all.len())
                    &&& n > 0
                    &&& forall|j: int, other: i32|
                        #![trigger all[j], samples_of(all, WaterBody::Lake { id: other }, all.len())]
                        0 <= j < i && all[j] == Some(WaterBody::Lake { id: other }) ==> samples_of(
                            all,
                            WaterBody::Lake { id: other },
                            all.len(),
                        ) < n || (samples_of(all, WaterBody::Lake { id: other }, all.len()) == n
                            && other <= id)
                },
                None => forall|j: int, other: i32|
                    0 <= j < i ==> #[trigger] all[j] != Some(#[trigger] lake_body(other)),
            },
        decreases columns@.len() - i,
    {
        match columns[i] {
            Some(WaterBody::Lake { id }) => {
                let n: usize = count_samples(columns, WaterBody::Lake { id });
                proof {
                    lemma_counted(all, WaterBody::Lake { id }, all.len(), i as int);
                    assert(lake_body(id) == WaterBody::Lake { id });
                }
                match best {
                    Some((b, m)) => {
                        if n > m || (n == m && id > b) {
                            best = Some((id, n));
                        }
                    },
                    None => {
                        proof {
                            assert forall|j: int, other: i32|
                                #![trigger all[j], samples_of(all, WaterBody::Lake { id: other }, all.len())]
                                0 <= j < i && all[j] == Some(
                                    WaterBody::Lake { id: other },
                                ) implies false by {
                                assert(all[j] != Some(lake_body(other)));
                            }
                        }
                        best = Some((id, n));
                    },
                }
            },
            _ => {},
        }
        i += 1;
    }
    proof {
        match best {
            Some((id, n)) => {
                assert forall|other: i32|
                    {
                        let theirs = #[trigger] samples_of(
                            all,
                            WaterBody::Lake { id: other },
                            all.len(),
                        );
                        theirs < n || (theirs == n && other <= id)
                    } by {
                    if samples_of(all, WaterBody::Lake { id: other }, all.len()) > 0 {
                        lemma_sampled(all, WaterBody::Lake { id: other }, all.len());
                        let j = choose|j: int|
                            0 <= j < all.len() && all[j] == Some(WaterBody::Lake { id: other });
                        assert(all[j] == Some(WaterBody::Lake { id: other }));
                    }
                }
            },
            None => {
                assert forall|id: i32| #[trigger]
                    samples_of(all, WaterBody::Lake { id }, all.len()) == 0 by {
                    if samples_of(all, WaterBody::Lake { id }, all.len()) > 0 {
                        lemma_sampled(all, WaterBody::Lake { id }, all.len());
                        let j = choose|j: int|
                            0 <= j < all.len() && all[j] == Some(WaterBody::Lake { id });
                        assert(all[j] != Some(lake_body(id)));
                    }
                }
            },
        }
    }
    best
}

/// A lake as a body of water.
pub open spec fn lake_body(id: i32) -> WaterBody {
    WaterBody::Lake { id }
}

proof fn lemma_counted(columns: Seq<Option<WaterBody>>, b: WaterBody, n: nat, i: int)
    requires
        n <= columns.len(),
        0 <= i < n,
        columns[i] == Some(b),
    ensures
        samples_of(columns, b, n) > 0,
    decreases n,
{
    if i < n - 1 {
        lemma_counted(columns, b, (n - 1) as nat, i);
    }
}

/// The body that tints a cell: the best lake where no other water has more samples,
/// else the river where it has more than the ocean, else the ocean.
pub open spec fn tint(columns: Seq<Option<WaterBody>>, kind: WaterBodyKind) -> bool {
    let n = columns.len();
    let ocean = samples_of(columns, WaterBody::Ocean, n);
    let river = samples_of(columns, WaterBody::River, n);
    if exists|id: i32| #[trigger] best_lake(columns, id) && samples_of(columns, lake_body(id), n)
        >= ocean && samples_of(columns, lake_body(id), n) >= river {
        kind is Lake && best_lake(columns, kind->lake_id)
    } else if river > ocean {
        kind == WaterBodyKind::River
    } else {
        kind == WaterBodyKind::Ocean
    }
}

/// What a cell's map is tinted by, from the samples of its surface.
pub fn dominant_body(columns: &[Option<WaterBody>]) -> (r: WaterBodyKind)
    ensures
        tint(columns@, r),
{
    let ocean: usize = count_samples(columns, WaterBody::Ocean);
    let river: usize = count_samples(columns, WaterBody::River);
    match most_sampled_lake(columns) {
        Some((id, n)) => {
            proof {
                assert(lake_body(id) == WaterBody::Lake { id });
                assert(best_lake(columns@, id));
                assert forall|other: i32| #[trigger] best_lake(columns@, other) implies other
                    == id by {
                    assert(samples_of(columns@, WaterBody::Lake { id: other }, columns@.len())
                        >= 0);
                    assert(samples_of(columns@, WaterBody::Lake { id }, columns@.len()) >= 0);
                }
            }
            if n >= ocean && n >= river {
                return WaterBodyKind::Lake { lake_id: id };
            }
        },
        None => {
            proof {
                assert forall|id: i32| !#[trigger] best_lake(columns@, id) by {
                    assert(samples_of(columns@, WaterBody::Lake { id }, columns@.len()) == 0);
                }
            }
        },
    }
    if river > ocean {
        WaterBodyKind::River
    } else {
        WaterBodyKind::Ocean
    }
}

/// How many samples are wet.
pub open spec fn wet_upto(columns: Seq<Option<WaterBody>>, n: nat) -> nat
    decreases n,
{
    if n == 0 {
        0
    } else {
        wet_upto(columns, (n - 1) as nat) + if columns[n - 1] is Some {
            1nat
        } else {
            0nat
        }
    }
}

pub fn wet_samples(columns: &[Option<WaterBody>]) -> (r: usize)
    ensures
        r == wet_upto(columns@, columns@.len()),
{
    let mut n: usize = 0;
    let mut i: usize = 0;
    while i < columns.len()
        invariant
            i <= columns@.len(),
            n <= i,
            n == wet_upto(columns@, i as nat),
        decreases columns@.len() - i,
    {
        if columns[i].is_some() {
            n += 1;
        }
        i += 1;
    }
    n
}

/// Samples along a side of a cell's map.
pub const OVERLAY_WATER_RES: usize = 64;

/// Samples along a side of a cell's shore raster.
pub const WATER_RES: usize = 80;

/// What a drawn cell holds.
#[derive(Clone, Copy, Debug, PartialEq, Eq, Structural)]
pub struct CellTally {
    pub ax: i32,
    pub az: i32,
    pub biome: Biome,
    pub wet: usize,
    pub shores: usize,
    pub rivers: usize,
    pub roads: usize,
}

impl CellTally {
    /// The line for a cell's map.
    pub open spec fn overlay_line(self) -> Seq<char> {
        "overlay ("@ + decimal(self.ax as int) + ","@ + decimal(self.az as int) + ") "@
            + self.biome.name_text() + "  wet="@ + decimal(self.wet as int) + "/4096  shores="@
            + decimal(self.shores as int) + "  rivers="@ + decimal(self.rivers as int)
            + "  roads="@ + decimal(self.roads as int)
    }

    /// The line for a cell's vectors.
    pub open spec fn sublayer_line(self) -> Seq<char> {
        "sublayer ("@ + decimal(self.ax as int) + ","@ + decimal(self.az as int) + ") "@
            + self.biome.name_text() + "  wet_samples="@ + decimal(self.wet as int)
            + "/6400  shores="@ + decimal(self.shores as int) + "  rivers="@ + decimal(
            self.rivers as int,
        ) + "  roads="@ + decimal(self.roads as int)
    }

    /// Says what a cell's map holds.
    pub fn overlay_summary(&self) -> (r: String)
        ensures
            r@ == self.overlay_line(),
    {
        let mut out: String = owned("overlay (");
        push_decimal(&mut out, self.ax as i64);
        out.append(",");
        push_decimal(&mut out, self.az as i64);
        out.append(") ");
        out.append(self.biome.name());
        out.append("  wet=");
        push_count(&mut out, self.wet);
        out.append("/4096  shores=");
        push_count(&mut out, self.shores);
        out.append("  rivers=");
        push_count(&mut out, self.rivers);
        out.append("  roads=");
        push_count(&mut out, self.roads);
        out
    }

    /// Says what a cell's vectors hold.
    pub fn sublayer_summary(&self) -> (r: String)
        ensures
            r@ == self.sublayer_line(),
    {
        let mut out: String = owned("sublayer (");
        push_decimal(&mut out, self.ax as i64);
        out.append(",");
        push_decimal(&mut out, self.az as i64);
        out.append(") ");
        out.append(self.biome.name());
        out.append("  wet_samples=");
        push_count(&mut out, self.wet);
        out.append("/6400  shores=");
        push_count(&mut out, self.shores);
        out.append("  rivers=");
        push_count(&mut out, self.rivers);
        out.append("  roads=");
        push_count(&mut out, self.roads);
        out
    }
}

/// Which cells a viewer takes for shores.
#[derive(Clone, Copy, Debug, PartialEq, Eq, Structural)]
pub enum ShoreView {
    /// Coast cells and those a lake or coast ring is listed under.
    Overlay,
    /// Those, and water beside land.
    Sublayer,
}

impl ContinentAtlas {
    /// Whether a cell lies on a shore; `ringed` says which cells a ring is listed under.
    pub open spec fn on_shore(&self, ringed: Seq<bool>, view: ShoreView, ax: int, az: int) -> bool {
        &&& inside(self.size as int, ax, az)
        &&& {
            ||| cell_biome(self.cell(ax, az)) == Biome::Coast
            ||| ringed[cell_number(self.size as int, ax, az)]
            ||| view == ShoreView::Sublayer && self.watery(ax, az) && self.land_beside(ax, az)
        }
    }

    /// Whether a cell is revealed: it or one beside it lies on a shore.
    pub open spec fn revealed(&self, ringed: Seq<bool>, view: ShoreView, ax: int, az: int) -> bool {
        ||| self.on_shore(ringed, view, ax, az)
        ||| self.on_shore(ringed, view, ax + 1, az)
        ||| self.on_shore(ringed, view, ax - 1, az)
        ||| self.on_shore(ringed, view, ax, az + 1)
        ||| self.on_shore(ringed, view, ax, az - 1)
    }

    fn is_on_shore(&self, ringed: &[bool], view: ShoreView, ax: i32, az: i32) -> (r: bool)
        requires
            self.grid_ok(),
            ringed@.len() == self.size * self.size,
        ensures
            r == self.on_shore(ringed@, view, ax as int, az as int),
    {
        if !self.in_bounds(ax, az) {
            return false;
        }
        let at: usize = self.index_of(ax, az);
        assert(cell_valid(self.cells@[at as int]));
        proof {
            lemma_cell_biome(self.cells@[at as int]);
        }
        if biome(self.cells[at]) == Biome::Coast || ringed[at] {
            return true;
        }
        match view {
            ShoreView::Overlay => false,
            ShoreView::Sublayer => self.cell_is_water_biome(ax, az) && self.touches_land(ax, az),
        }
    }

    /// The cells to reveal so that every shore is seen, row by row.
    pub fn shores_to_reveal(&self, ringed: &[bool], view: ShoreView) -> (r: Vec<(i32, i32)>)
        requires
            self.grid_ok(),
            ringed@.len() == self.size * self.size,
        ensures
            forall|k: int|
                0 <= k < r@.len() ==> {
                    &&& inside(self.size as int, (#[trigger] r@[k]).0 as int, r@[k].1 as int)
                    &&& self.revealed(ringed@, view, r@[k].0 as int, r@[k].1 as int)
                },
            forall|ax: i32, az: i32|
                inside(self.size as int, ax as int, az as int) && self.revealed(
                    ringed@,
                    view,
                    ax as int,
                    az as int,
                ) ==> #[trigger] r@.contains((ax, az)),
    {
        proof {
            lemma_side(self.size as int);
        }
        let mut out: Vec<(i32, i32)> = Vec::new();
        let s: i32 = self.size as i32;
        let mut az: i32 = 0;
        while az < s
            invariant
                0 <= az <= s,
                s == self.size,
                s <= 46340,
                self.grid_ok(),
                ringed@.len() == self.size * self.size,
                forall|k: int|
                    0 <= k < out@.len() ==> {
                        &&& inside(s as int, (#[trigger] out@[k]).0 as int, out@[k].1 as int)
                        &&& self.revealed(ringed@, view, out@[k].0 as int, out@[k].1 as int)
                    },
                forall|x: i32, z: i32|
                    inside(s as int, x as int, z as int) && z < az && self.revealed(
                        ringed@,
                        view,
                        x as int,
                        z as int,
                    ) ==> #[trigger] out@.contains((x, z)),
            decreases s - az,
        {
            let mut ax: i32 = 0;
            while ax < s
                invariant
                    0 <= ax <= s,
                    0 <= az < s,
                    s == self.size,
                    s <= 46340,
                    self.grid_ok(),
                    ringed@.len() == self.size * self.size,
                    forall|k: int|
                        0 <= k < out@.len() ==> {
                            &&& inside(s as int, (#[trigger] out@[k]).0 as int, out@[k].1 as int)
                            &&& self.revealed(ringed@, view, out@[k].0 as int, out@[k].1 as int)
                        },
                    forall|x: i32, z: i32|
                        inside(s as int, x as int, z as int) && (z < az || (z == az && x < ax))
                            && self.revealed(ringed@, view, x as int, z as int)
                            ==> #[trigger] out@.contains((x, z)),
                decreases s - ax,
            {
                let shown: bool = self.is_on_shore(ringed, view, ax, az) || self.is_on_shore(
                    ringed,
                    view,
                    ax + 1,
                    az,
                ) || self.is_on_shore(ringed, view, ax - 1, az) || self.is_on_shore(
                    ringed,
                    view,
                    ax,
                    az + 1,
                ) || self.is_on_shore(ringed, view, ax, az - 1);
                if shown {
                    let ghost was = out@;
                    out.push((ax, az));
                    proof {
                        assert forall|x: i32, z: i32|
                            was.contains((x, z)) || (x == ax && z == az) implies #[trigger] out@.contains(
                        (x, z)) by {
                            if was.contains((x, z)) {
                                let k = choose|k: int| 0 <= k < was.len() && was[k] == (x, z);
                                assert(out@[k] == (x, z));
                            } else {
                                assert(out@[was.len() as int] == (x, z));
                            }
                        }
                    }
                }
                ax += 1;
            }
            az += 1;
        }
        out
    }
}

} // verus!
