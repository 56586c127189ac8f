//! The finished atlas and how it is read.

use crate::atlas::biomes::Biome;
use crate::atlas::cell_map::{list_at, lists, map_get, map_len};
use crate::atlas::features::{dir_delta, dir_opposite, edge_holder, edge_key, edge_key_of, law_edge_shared, Dir, Kind};
use crate::atlas::grid::{cell_number, in_bounds, index_of, inside, is_cell, lemma_side, side_ok};
use crate::atlas::pack::{biome, cell_biome_id, cell_valid};
use crate::atlas::types::{Crossing, GraphNode, Lake, Link, Port};
use crate::text::owned;
use rustc_hash::FxHashMap;
use vstd::prelude::*;

verus! {

pub const SIZE: usize = 1000;

pub const SCHEMA_VERSION: i32 = 5;

pub const SEA_SURFACE_Z: i32 = 0;

/// Why an atlas cannot be used.
#[derive(Debug)]
pub enum AtlasError {
    Validation(String),
}

impl AtlasError {
    pub fn message(&self) -> (r: String)
        ensures
            self matches AtlasError::Validation(why) && r@ == "atlas validation failed: "@ + why@,
    {
        match self {
            AtlasError::Validation(why) => {
                let mut out: String = owned("atlas validation failed: ");
                out.append(why.as_str());
                out
            },
        }
    }
}

/// What the atlas keeps of its drawn water lines: the id and the number of points
/// of every river, and how many lake outlines and coast rings there are.
pub struct HydroSummary {
    pub rivers: Vec<(i32, usize)>,
    pub lakes: usize,
    pub coasts: usize,
}

/// Immutable continental climate + major river/road continuity.
pub struct ContinentAtlas {
    pub schema_version: i32,
    pub world_seed: i32,
    pub size: usize,
    pub content_hash: i32,
    pub sea_surface_z: i32,
    pub cells: Vec<i32>,
    pub landmass_id: Vec<i32>,
    pub lake_id: Vec<i32>,
    pub lakes: Vec<Lake>,
    pub nodes: Vec<GraphNode>,
    pub crossings: Vec<Crossing>,
    pub primary_road_edges: Vec<(i32, i32)>,
    pub river_ports: FxHashMap<i32, Vec<Port>>,
    pub road_ports: FxHashMap<i32, Vec<Port>>,
    pub river_links: FxHashMap<i32, Vec<Link>>,
    pub road_links: FxHashMap<i32, Vec<Link>>,
    pub river_receiver: Vec<i32>,
    pub mouth_distance: Vec<i32>,
    pub hydro: HydroSummary,
}

impl ContinentAtlas {
    /// The cells form a grid of the atlas's size and each names a biome.
    pub open spec fn grid_ok(&self) -> bool {
        &&& side_ok(self.size as int)
        &&& self.cells@.len() == self.size * self.size
        &&& forall|c: int| is_cell(self.size as int, c) ==> cell_valid(#[trigger] self.cells@[c])
    }

    /// The cell at `(ax, az)`.
    pub open spec fn cell(&self, ax: int, az: int) -> i32 {
        self.cells@[cell_number(self.size as int, ax, az)]
    }

    /// The ports of a kind, by edge key.
    pub open spec fn ports(&self, kind: Kind) -> Map<i32, Seq<Port>> {
        match kind {
            Kind::River => lists(self.river_ports@),
            Kind::Road => lists(self.road_ports@),
        }
    }

    /// The links of a kind, by cell.
    pub open spec fn links(&self, kind: Kind) -> Map<i32, Seq<Link>> {
        match kind {
            Kind::River => lists(self.river_links@),
            Kind::Road => lists(self.road_links@),
        }
    }

    pub fn index_of(&self, ax: i32, az: i32) -> (r: usize)
        requires
            side_ok(self.size as int),
            inside(self.size as int, ax as int, az as int),
        ensures
            r == cell_number(self.size as int, ax as int, az as int),
            is_cell(self.size as int, r as int),
    {
        index_of(ax, az, self.size)
    }

    pub fn in_bounds(&self, ax: i32, az: i32) -> (r: bool)
        ensures
            r == inside(self.size as int, ax as int, az as int),
    {
        in_bounds(ax, az, self.size)
    }

    pub fn cell_at(&self, ax: i32, az: i32) -> (r: i32)
        requires
            side_ok(self.size as int),
            self.cells@.len() == self.size * self.size,
            inside(self.size as int, ax as int, az as int),
        ensures
            r == self.cell(ax as int, az as int),
    {
        self.cells[self.index_of(ax, az)]
    }

    pub fn is_ocean(&self, ax: i32, az: i32) -> (r: bool)
        requires
            self.grid_ok(),
            inside(self.size as int, ax as int, az as int),
        ensures
            r == (cell_biome_id(self.cell(ax as int, az as int)) == 0),
    {
        let at: usize = self.index_of(ax, az);
        assert(cell_valid(self.cells@[at as int]));
        biome(self.cells[at]) == Biome::Ocean
    }

    pub fn is_lake(&self, ax: i32, az: i32) -> (r: bool)
        requires
            self.grid_ok(),
            inside(self.size as int, ax as int, az as int),
        ensures
            r == (cell_biome_id(self.cell(ax as int, az as int)) == 8),
    {
        let at: usize = self.index_of(ax, az);
        assert(cell_valid(self.cells@[at as int]));
        biome(self.cells[at]) == Biome::Lake
    }

    /// The ports on the edge of a cell, none where the edge has none.
    pub fn ports_on_edge(&self, ax: i32, az: i32, dir: Dir, kind: Kind) -> (r: &[Port])
        requires
            0 <= edge_holder(ax as int, az as int, dir).0 < self.size,
            0 <= edge_holder(ax as int, az as int, dir).1 < self.size,
        ensures
            r@ == list_at(self.ports(kind), edge_key_of(ax as int, az as int, dir)),
    {
        let key: i32 = edge_key(ax, az, dir, self.size);
        let found: Option<&Vec<Port>> = match kind {
            Kind::River => map_get(&self.river_ports, key),
            Kind::Road => map_get(&self.road_ports, key),
        };
        match found {
            Some(v) => v.as_slice(),
            None => &[],
        }
    }

    /// The links in a cell, none where the cell has none.
    pub fn links_in_cell(&self, ax: i32, az: i32, kind: Kind) -> (r: &[Link])
        requires
            side_ok(self.size as int),
            inside(self.size as int, ax as int, az as int),
        ensures
            r@ == list_at(
                self.links(kind),
                cell_number(self.size as int, ax as int, az as int) as i32,
            ),
    {
        proof {
            lemma_side(self.size as int);
        }
        let key: i32 = self.index_of(ax, az) as i32;
        let found: Option<&Vec<Link>> = match kind {
            Kind::River => map_get(&self.river_links, key),
            Kind::Road => map_get(&self.road_links, key),
        };
        match found {
            Some(v) => v.as_slice(),
            None => &[],
        }
    }

    /// The hash of the atlas's counts.
    pub open spec fn counts_hash(&self) -> i64 {
        let h = mixed(self.world_seed as i64, self.size as i64);
        let h = mixed(h, self.schema_version as i64);
        let h = mixed(h, self.lakes@.len() as i64);
        let h = mixed(h, self.nodes@.len() as i64);
        let h = mixed(h, self.river_ports@.dom().len() as i64);
        let h = mixed(h, self.road_ports@.dom().len() as i64);
        let h = mixed(h, self.crossings@.len() as i64);
        let h = mixed(h, self.hydro.rivers@.len() as i64);
        let h = mixed(h, self.hydro.lakes as i64);
        mixed(h, self.hydro.coasts as i64)
    }

    /// The hash of the counts and of about every 32nd cell of every 32nd row.
    pub open spec fn hash_of(&self) -> i32 {
        let stride = if self.size / 32 > 1 {
            self.size / 32
        } else {
            1
        };
        rows_hash(self.cells@, self.size as int, stride as int, 0, self.counts_hash()) as i32
    }

    pub fn compute_hash(&self) -> (r: i32)
        requires
            side_ok(self.size as int),
            self.cells@.len() == self.size * self.size,
        ensures
            r == self.hash_of(),
    {
        let mut h: i64 = self.world_seed as i64;
        h = h.wrapping_mul(31).wrapping_add(self.size as i64);
        h = h.wrapping_mul(31).wrapping_add(self.schema_version as i64);
        h = h.wrapping_mul(31).wrapping_add(self.lakes.len() as i64);
        h = h.wrapping_mul(31).wrapping_add(self.nodes.len() as i64);
        h = h.wrapping_mul(31).wrapping_add(map_len(&self.river_ports) as i64);
        h = h.wrapping_mul(31).wrapping_add(map_len(&self.road_ports) as i64);
        h = h.wrapping_mul(31).wrapping_add(self.crossings.len() as i64);
        h = h.wrapping_mul(31).wrapping_add(self.hydro.rivers.len() as i64);
        h = h.wrapping_mul(31).wrapping_add(self.hydro.lakes as i64);
        h = h.wrapping_mul(31).wrapping_add(self.hydro.coasts as i64);
        let size: usize = self.size;
        let stride: usize = if size / 32 > 1 {
            size / 32
        } else {
            1
        };
        let ghost start = h;
        proof {
            lemma_side(size as int);
        }
        let mut az: usize = 0;
        while az < size
            invariant
                size == self.size,
                side_ok(size as int),
                self.cells@.len() == size * size,
                0 < stride <= 46340,
                az <= 100000,
                rows_hash(self.cells@, size as int, stride as int, az as int, h) == rows_hash(
                    self.cells@,
                    size as int,
                    stride as int,
                    0,
                    start,
                ),
            decreases size + stride - az,
        {
            let ghost row_start = h;
            let mut ax: usize = 0;
            while ax < size
                invariant
                    size == self.size,
                    side_ok(size as int),
                    self.cells@.len() == size * size,
                    0 < stride <= 46340,
                    az < size,
                    ax <= 100000,
                    row_hash(self.cells@, size as int, stride as int, ax as int, az as int, h)
                        == row_hash(
                        self.cells@,
                        size as int,
                        stride as int,
                        0,
                        az as int,
                        row_start,
                    ),
                decreases size + stride - ax,
            {
                let at: usize = self.index_of(ax as i32, az as i32);
                h = h.wrapping_mul(31).wrapping_add(self.cells[at] as i64);
                ax += stride;
            }
            az += stride;
        }
        h as i32
    }
}

/// One more number in a hash: times 31, plus the number, in 64 wrapping bits.
pub open spec fn mixed(h: i64, v: i64) -> i64 {
    h.wrapping_mul(31).wrapping_add(v)
}

/// The hash after every `stride`-th cell of row `az`, from `ax` on.
pub open spec fn row_hash(
    cells: Seq<i32>,
    size: int,
    stride: int,
    ax: int,
    az: int,
    h: i64,
) -> i64
    decreases size + stride - ax,
{
    if stride > 0 && ax < size {
        row_hash(
            cells,
            size,
            stride,
            ax + stride,
            az,
            mixed(h, cells[cell_number(size, ax, az)] as i64),
        )
    } else {
        h
    }
}

/// The hash after every `stride`-th row from `az` on.
pub open spec fn rows_hash(cells: Seq<i32>, size: int, stride: int, az: int, h: i64) -> i64
    decreases size + stride - az,
{
    if stride > 0 && az < size {
        rows_hash(cells, size, stride, az + stride, row_hash(cells, size, stride, 0, az, h))
    } else {
        h
    }
}

/// Two cells that share an edge see the same ports on it.
pub proof fn law_shared_edge_ports_agree(
    atlas: ContinentAtlas,
    kind: Kind,
    ax: int,
    az: int,
    dir: Dir,
)
    ensures
        list_at(atlas.ports(kind), edge_key_of(ax, az, dir)) == list_at(
            atlas.ports(kind),
            edge_key_of(ax + dir_delta(dir).0, az + dir_delta(dir).1, dir_opposite(dir)),
        ),
{
    law_edge_shared(ax, az, dir);
}

} // verus!
