//! The checks an atlas must pass.

use crate::atlas::biomes::{is_land, is_water, Biome};
use crate::atlas::cell_map::{list_at, list_push, lists, map_get, map_keys, map_len, map_new};
use crate::atlas::continent::{law_shared_edge_ports_agree, ContinentAtlas, SCHEMA_VERSION};
use crate::atlas::drainage::wet;
use crate::atlas::fault_lists::{first_told, lemma_told, one_if, told_in_part, walks, TOLD};
use crate::atlas::faults::{has_share, share, share_of, AtlasFault, SHARE_ENOUGH, SHARE_HALF};
use crate::atlas::features::{Dir, EndpointKind, Kind};
use crate::atlas::grid::{
    cell_number, cell_x, cell_z, gather_part, inside, is_cell, is_part, joined, lemma_cell_coords,
    lemma_side, neighbor, on_border, reach_from, settled, side_ok, step,
};
use crate::atlas::inland::border_seeds;
use crate::atlas::lakes::mark_cells;
use crate::atlas::landmask::{collar_cells, collar_of};
use crate::atlas::pack::{
    biome, cell_biome_id, cell_elevation, cell_pop, cell_valid, elevation, population,
};
use crate::atlas::population::{cell_is_river_mouth, is_mouth};
use crate::atlas::types::{GraphNode, Lake, Link, Port};
use crate::atlas::union_find::{count_linked, linked_count};
use rustc_hash::FxHashMap;
use vstd::prelude::*;

verus! {

/// A cell of the strip of `collar` cells along the sides.
pub open spec fn in_collar(size: int, collar: int, c: int) -> bool {
    cell_x(size, c) < collar || cell_z(size, c) < collar || cell_x(size, c) >= size - collar
        || cell_z(size, c) >= size - collar
}

/// How many of the first `n` cells are marked.
pub open spec fn count_upto(mark: spec_fn(int) -> bool, n: nat) -> int
    decreases n,
{
    if n == 0 {
        0
    } else {
        count_upto(mark, (n - 1) as nat) + if mark(n - 1) {
            1int
        } else {
            0
        }
    }
}

impl ContinentAtlas {
    pub open spec fn area(&self) -> nat {
        (self.size * self.size) as nat
    }

    pub open spec fn ocean_at(&self, c: int) -> bool {
        cell_biome_id(self.cells@[c]) == 0
    }

    /// Cells that are not sea.
    pub open spec fn land_cells(&self) -> int {
        count_upto(|c: int| !self.ocean_at(c), self.area())
    }

    /// Cells of the collar.
    pub open spec fn collar_area(&self) -> int {
        count_upto(
            |c: int| in_collar(self.size as int, collar_of(self.size as int), c),
            self.area(),
        )
    }

    /// Sea cells of the collar.
    pub open spec fn collar_sea(&self) -> int {
        count_upto(
            |c: int|
                in_collar(self.size as int, collar_of(self.size as int), c) && self.ocean_at(c),
            self.area(),
        )
    }

    /// Dry cells.
    pub open spec fn dry_cells(&self) -> int {
        count_upto(|c: int| !wet(self.cells@, c), self.area())
    }

    /// Dry cells with people.
    pub open spec fn settled_cells(&self) -> int {
        count_upto(|c: int| !wet(self.cells@, c) && cell_pop(self.cells@[c]) > 0, self.area())
    }

    /// Water cells with people.
    pub open spec fn drowned_cells(&self) -> int {
        count_upto(|c: int| wet(self.cells@, c) && cell_pop(self.cells@[c]) > 0, self.area())
    }

    /// The sea cells.
    pub open spec fn ocean_mask(&self) -> Seq<bool> {
        Seq::new(self.area(), |c: int| self.ocean_at(c))
    }

    /// The sea of the cell reaches the side of the map.
    pub open spec fn open_ocean(&self, c: int) -> bool {
        exists|b: int|
            is_cell(self.size as int, b) && on_border(self.size as int, b) && #[trigger] joined(
                self.size as int,
                self.ocean_mask(),
                b,
                c,
            )
    }

    /// The first sea cell whose sea does not reach the side of the map.
    pub open spec fn first_inland_ocean(&self, c: int) -> bool {
        &&& is_cell(self.size as int, c)
        &&& self.ocean_at(c)
        &&& !self.open_ocean(c)
        &&& forall|d: int| 0 <= d < c && self.ocean_at(d) ==> #[trigger] self.open_ocean(d)
    }
}

/// The cells of a list, as a mask.
pub open spec fn list_mask(size: int, cells: Seq<i32>) -> Seq<bool> {
    Seq::new((size * size) as nat, |c: int| cells.contains(c as i32))
}

/// Cells without repeats that walks within the list join to the first.
pub open spec fn contiguous(size: int, cells: Seq<i32>) -> bool {
    &&& cells.len() > 0
    &&& cells.no_duplicates()
    &&& forall|i: int|
        0 <= i < cells.len() ==> joined(
            size,
            list_mask(size, cells),
            cells[0] as int,
            #[trigger] cells[i] as int,
        )
}

impl ContinentAtlas {
    /// The sea or the side of the map lies on side `k` of `c`.
    pub open spec fn ocean_beside(&self, c: int, k: int) -> bool {
        match step(self.size as int, c, k) {
            Some(d) => self.ocean_at(d),
            None => true,
        }
    }

    /// A lake cell has the sea or the side of the map beside it.
    pub open spec fn at_sea(&self, cells: Seq<i32>) -> bool {
        exists|i: int, k: int|
            0 <= i < cells.len() && 0 <= k < 4 && #[trigger] self.ocean_beside(cells[i] as int, k)
    }

    /// Every lake cell is a cell of the grid.
    pub open spec fn lakes_on_grid(&self) -> bool {
        forall|l: int, i: int|
            #![trigger self.lakes@[l].cells@[i]]
            0 <= l < self.lakes@.len() && 0 <= i < self.lakes@[l].cells@.len() ==> is_cell(
                self.size as int,
                self.lakes@[l].cells@[i] as int,
            )
    }
}

/// What the first pass over the cells counts.
struct Tally {
    land: usize,
    border: usize,
    ocean: usize,
}

impl ContinentAtlas {
    #[verifier::loop_isolation(false)]
    fn tally(&self) -> (r: Tally)
        requires
            self.grid_ok(),
        ensures
            r.land == self.land_cells(),
            r.border == self.collar_area(),
            r.ocean == self.collar_sea(),
            r.ocean <= r.border,
    {
        let size: usize = self.size;
        let ghost n = size as int;
        let ghost not_sea = |c: int| !self.ocean_at(c);
        let ghost rim = |c: int| in_collar(n, collar_of(n), c);
        let ghost rim_sea = |c: int| in_collar(n, collar_of(n), c) && self.ocean_at(c);
        proof {
            lemma_side(n);
        }
        let collar: i32 = collar_cells(size);
        let count: usize = size * size;
        let mut land: usize = 0;
        let mut border: usize = 0;
        let mut ocean: usize = 0;
        let mut i: usize = 0;
        while i < count
            invariant
                i <= count,
                land <= i,
                border <= i,
                ocean <= border,
                land == count_upto(not_sea, i as nat),
                border == count_upto(rim, i as nat),
                ocean == count_upto(rim_sea, i as nat),
            decreases count - i,
        {
            proof {
                lemma_cell_coords(n, i as int);
                assert(is_cell(n, i as int) && cell_valid(self.cells@[i as int]));
            }
            let ax: i32 = (i % size) as i32;
            let az: i32 = (i / size) as i32;
            let sea: bool = biome(self.cells[i]) == Biome::Ocean;
            if !sea {
                land += 1;
            }
            if ax < collar || az < collar || ax >= size as i32 - collar || az >= size as i32
                - collar {
                border += 1;
                if sea {
                    ocean += 1;
                }
            }
            i += 1;
        }
        Tally { land, border, ocean }
    }

    pub fn lake_is_connected(&self, lake: &Lake) -> (r: bool)
        requires
            side_ok(self.size as int),
            forall|i: int|
                0 <= i < lake.cells@.len() ==> is_cell(
                    self.size as int,
                    #[trigger] lake.cells@[i] as int,
                ),
        ensures
            r == contiguous(self.size as int, lake.cells@),
    {
        let ghost n = self.size as int;
        let ghost cells = lake.cells@;
        if lake.cells.len() == 0 {
            return false;
        }
        proof {
            lemma_side(n);
        }
        let count: usize = self.size * self.size;
        proof {
            assert forall|i: int| 0 <= i < cells.len() implies 0 <= #[trigger] cells[i] < count by {
                assert(is_cell(n, cells[i] as int));
            }
            assert(is_cell(n, cells[0] as int));
        }
        let mask: Vec<bool> = mark_cells(count, &lake.cells);
        let mut seen: Vec<bool> = vec![false; count];
        proof {
            assert(mask@ =~= list_mask(n, cells));
            assert(cells.contains(cells[0]));
            assert(settled(n, mask@, seen@));
        }
        let part: Vec<i32> = gather_part(self.size, &mask, lake.cells[0] as usize, &mut seen);
        proof {
            lemma_part_of_list(n, cells, part@);
        }
        part.len() == lake.cells.len()
    }
}

/// The part around the first cell is as long as the list exactly where the list is
/// contiguous.
proof fn lemma_part_of_list(size: int, cells: Seq<i32>, part: Seq<i32>)
    requires
        side_ok(size),
        cells.len() > 0,
        forall|i: int| 0 <= i < cells.len() ==> is_cell(size, #[trigger] cells[i] as int),
        is_part(size, list_mask(size, cells), cells[0] as int, part),
    ensures
        part.len() == cells.len() <==> contiguous(size, cells),
{
    let mask = list_mask(size, cells);
    lemma_side(size);
    assert forall|x: i32| part.to_set().contains(x) implies cells.to_set().contains(x) by {
        let i = choose|i: int| 0 <= i < part.len() && part[i] == x;
        assert(joined(size, mask, cells[0] as int, part[i] as int));
        crate::atlas::grid::lemma_joined_ends(size, mask, cells[0] as int, part[i] as int);
        assert(mask[part[i] as int]);
        assert(cells.contains(x));
    }
    part.unique_seq_to_set();
    vstd::seq_lib::seq_to_set_is_finite(cells);
    vstd::seq_lib::seq_to_set_is_finite(part);
    cells.lemma_cardinality_of_set();
    vstd::set_lib::lemma_len_subset(part.to_set(), cells.to_set());
    if part.len() == cells.len() {
        cells.lemma_no_dup_set_cardinality();
        vstd::set_lib::lemma_subset_equality(part.to_set(), cells.to_set());
        assert forall|i: int| 0 <= i < cells.len() implies joined(
            size,
            mask,
            cells[0] as int,
            #[trigger] cells[i] as int,
        ) by {
            assert(cells.to_set().contains(cells[i]));
            assert(part.to_set().contains(cells[i]));
            let j = choose|j: int| 0 <= j < part.len() && part[j] == cells[i];
            assert(joined(size, mask, cells[0] as int, part[j] as int));
        }
    }
    if contiguous(size, cells) {
        cells.unique_seq_to_set();
        assert forall|x: i32| cells.to_set().contains(x) implies part.to_set().contains(x) by {
            let i = choose|i: int| 0 <= i < cells.len() && cells[i] == x;
            assert(joined(size, mask, cells[0] as int, cells[i] as int));
            assert(part.contains(cells[i] as int as i32));
        }
        assert(cells.to_set() =~= part.to_set());
    }
}

impl ContinentAtlas {
    pub fn lake_touches_ocean(&self, lake: &Lake) -> (r: bool)
        requires
            self.grid_ok(),
            forall|i: int|
                0 <= i < lake.cells@.len() ==> is_cell(
                    self.size as int,
                    #[trigger] lake.cells@[i] as int,
                ),
        ensures
            r == self.at_sea(lake.cells@),
    {
        let ghost cells = lake.cells@;
        let mut i: usize = 0;
        while i < lake.cells.len()
            invariant
                i <= cells.len(),
                cells == lake.cells@,
                self.grid_ok(),
                forall|i: int|
                    0 <= i < cells.len() ==> is_cell(self.size as int, #[trigger] cells[i] as int),
                forall|j: int, k: int|
                    0 <= j < i && 0 <= k < 4 ==> !#[trigger] self.ocean_beside(cells[j] as int, k),
            decreases cells.len() - i,
        {
            assert(is_cell(self.size as int, cells[i as int] as int));
            let cell: usize = lake.cells[i] as usize;
            let mut k: usize = 0;
            while k < 4
                invariant
                    i < cells.len(),
                    cells == lake.cells@,
                    self.grid_ok(),
                    is_cell(self.size as int, cell as int),
                    cell == cells[i as int],
                    k <= 4,
                    forall|j: int, k: int|
                        0 <= j < i && 0 <= k < 4 ==> !#[trigger] self.ocean_beside(
                            cells[j] as int,
                            k,
                        ),
                    forall|m: int| 0 <= m < k ==> !#[trigger] self.ocean_beside(cell as int, m),
                decreases 4 - k,
            {
                let sea: bool = match neighbor(self.size, cell, k) {
                    None => true,
                    Some(nb) => {
                        assert(cell_valid(self.cells@[nb as int]));
                        biome(self.cells[nb]) == Biome::Ocean
                    },
                };
                assert(sea == self.ocean_beside(cell as int, k as int));
                if sea {
                    assert(self.ocean_beside(cells[i as int] as int, k as int));
                    return true;
                }
                k += 1;
            }
            i += 1;
        }
        false
    }

    /// First ocean cell not 4-connected to the atlas border through ocean.
    #[verifier::loop_isolation(false)]
    pub fn first_inland_ocean_cell(&self) -> (r: Option<usize>)
        requires
            self.grid_ok(),
        ensures
            match r {
                Some(c) => self.first_inland_ocean(c as int),
                None => forall|c: int|
                    is_cell(self.size as int, c) && self.ocean_at(c) ==> #[trigger] self.open_ocean(
                        c,
                    ),
            },
    {
        let size: usize = self.size;
        let ghost n = size as int;
        proof {
            lemma_side(n);
        }
        let count: usize = size * size;
        let mut sea: Vec<bool> = Vec::new();
        let mut i: usize = 0;
        while i < count
            invariant
                i <= count,
                sea@.len() == i,
                forall|c: int| 0 <= c < i ==> #[trigger] sea@[c] == self.ocean_at(c),
            decreases count - i,
        {
            assert(is_cell(n, i as int) && cell_valid(self.cells@[i as int]));
            sea.push(biome(self.cells[i]) == Biome::Ocean);
            i += 1;
        }
        assert(sea@ =~= self.ocean_mask());
        let seeds: Vec<usize> = border_seeds(size, &sea);
        let open: Vec<bool> = reach_from(size, &sea, &seeds);
        assert forall|c: int| is_cell(n, c) implies #[trigger] open@[c] == self.open_ocean(c) by {
            if open@[c] {
                let i = choose|i: int|
                    0 <= i < seeds@.len() && joined(n, sea@, #[trigger] seeds@[i] as int, c);
                assert(on_border(n, seeds@[i] as int));
                assert(joined(n, self.ocean_mask(), seeds@[i] as int, c));
            }
            if self.open_ocean(c) {
                let b = choose|b: int|
                    is_cell(n, b) && on_border(n, b) && #[trigger] joined(
                        n,
                        self.ocean_mask(),
                        b,
                        c,
                    );
                crate::atlas::grid::lemma_joined_ends(n, sea@, b, c);
                assert(seeds@.contains(b as usize));
                let i = choose|i: int| 0 <= i < seeds@.len() && seeds@[i] == b as usize;
                assert(joined(n, sea@, seeds@[i] as int, c));
            }
        }
        let mut c: usize = 0;
        while c < count
            invariant
                c <= count,
                forall|d: int| 0 <= d < c && self.ocean_at(d) ==> #[trigger] self.open_ocean(d),
            decreases count - c,
        {
            assert(is_cell(n, c as int));
            if sea[c] && !open[c] {
                return Some(c);
            }
            c += 1;
        }
        None
    }
}

impl ContinentAtlas {
    /// The river links and receivers name cells of the grid.
    pub open spec fn rivers_on_grid(&self) -> bool {
        &&& forall|key: i32| #[trigger]
            self.river_links@.contains_key(key) ==> is_cell(self.size as int, key as int)
        &&& self.river_receiver@.len() == self.cells@.len() ==> forall|c: int|
            is_cell(self.size as int, c) ==> #[trigger] self.river_receiver@[c] < self.size
                * self.size
    }

    /// A river link ends on the port `id` of the edge `key`.
    pub open spec fn port_used(&self, key: i32, id: i32) -> bool {
        exists|c: i32, i: int| #[trigger] self.uses_port(c, i, key, id)
    }

    pub open spec fn uses_port(&self, c: i32, i: int, key: i32, id: i32) -> bool {
        &&& self.river_links@.contains_key(c)
        &&& 0 <= i < self.river_links@[c]@.len()
        &&& ends_on(self.river_links@[c]@[i], key, id)
    }

    /// Port `i` of the edge `key` that no link ends on.
    pub open spec fn dangles(&self, key: i32, i: int) -> bool {
        &&& self.river_ports@.contains_key(key)
        &&& 0 <= i < self.river_ports@[key]@.len()
        &&& !self.port_used(key, self.river_ports@[key]@[i].id)
    }

    /// Following the receivers from `c` for at most `fuel` cells, the river comes
    /// to water or to a cell from which a link leaves into water.
    pub open spec fn river_ends(&self, c: int, fuel: nat) -> bool
        decreases fuel,
    {
        if fuel == 0 || c < 0 {
            false
        } else if wet(self.cells@, c) || is_mouth(lists(self.river_links@), c) {
            true
        } else if self.river_receiver@[c] < 0 {
            self.water_beside(c)
        } else {
            wet(self.cells@, self.river_receiver@[c] as int) || self.river_ends(
                self.river_receiver@[c] as int,
                (fuel - 1) as nat,
            )
        }
    }

    /// Water lies on a side of `c`.
    pub open spec fn water_beside(&self, c: int) -> bool {
        exists|k: int| 0 <= k < 4 && #[trigger] self.water_on_side(c, k)
    }

    pub open spec fn water_on_side(&self, c: int, k: int) -> bool {
        match step(self.size as int, c, k) {
            Some(d) => wet(self.cells@, d),
            None => false,
        }
    }

    /// A river in cell `c` that never comes to water.
    pub open spec fn vanishes(&self, c: int) -> bool {
        &&& self.river_receiver@.len() == self.cells@.len()
        &&& self.river_links@.contains_key(c as i32)
        &&& is_cell(self.size as int, c)
        &&& !self.river_ends(c, self.area())
    }

    /// A river in cell `c` that runs uphill.
    pub open spec fn climbs(&self, c: int) -> bool {
        let down = self.river_receiver@[c];
        &&& self.river_receiver@.len() == self.cells@.len()
        &&& is_cell(self.size as int, c)
        &&& !wet(self.cells@, c)
        &&& self.river_links@.contains_key(c as i32)
        &&& down >= 0
        &&& !wet(self.cells@, down as int)
        &&& cell_elevation(self.cells@[down as int]) > cell_elevation(self.cells@[c])
    }
}

/// The link ends on the port `id` of the edge `key`.
pub open spec fn ends_on(l: Link, key: i32, id: i32) -> bool {
    ||| l.a.kind == EndpointKind::EdgePort && l.a.ref_id == key && l.a.port_id == id
    ||| l.b.kind == EndpointKind::EdgePort && l.b.ref_id == key && l.b.port_id == id
}

impl ContinentAtlas {
    /// Cells on both sides of an edge hold the same ports, whatever the atlas.
    fn validate_edge_agreement(&self, kind: Kind) -> (errors: Vec<AtlasFault>)
        requires
            side_ok(self.size as int),
        ensures
            errors@.len() == 0,
    {
        let mut errors: Vec<AtlasFault> = Vec::new();
        let side: i32 = self.size as i32;
        let mut az: i32 = 0;
        while az < side
            invariant
                side_ok(self.size as int),
                side == self.size,
                0 <= az <= side,
                errors@.len() == 0,
            decreases side - az,
        {
            let mut ax: i32 = 0;
            while ax < side - 1
                invariant
                    side_ok(self.size as int),
                    side == self.size,
                    0 <= az < side,
                    0 <= ax <= side,
                    errors@.len() == 0,
                decreases side - ax,
            {
                let a: &[Port] = self.ports_on_edge(ax, az, Dir::East, kind);
                let b: &[Port] = self.ports_on_edge(ax + 1, az, Dir::West, kind);
                proof {
                    law_shared_edge_ports_agree(*self, kind, ax as int, az as int, Dir::East);
                }
                if a.len() != b.len() {
                    errors.push(
                        AtlasFault::EastPortsDisagree {
                            kind,
                            ax,
                            az,
                            here: a.len(),
                            there: b.len(),
                        },
                    );
                } else {
                    let mut i: usize = 0;
                    while i < a.len()
                        invariant
                            a@ == b@,
                            i <= a@.len(),
                            errors@.len() == 0,
                        decreases a@.len() - i,
                    {
                        if a[i].t_seed != b[i].t_seed || a[i].feature_class
                            != b[i].feature_class {
                            errors.push(AtlasFault::PortPayloadMismatch { ax, az, port: i });
                        }
                        i += 1;
                    }
                }
                ax += 1;
            }
            az += 1;
        }
        let mut az: i32 = 0;
        while az < side - 1
            invariant
                side_ok(self.size as int),
                side == self.size,
                0 <= az <= side,
                errors@.len() == 0,
            decreases side - az,
        {
            let mut ax: i32 = 0;
            while ax < side
                invariant
                    side_ok(self.size as int),
                    side == self.size,
                    0 <= az < side - 1,
                    0 <= ax <= side,
                    errors@.len() == 0,
                decreases side - ax,
            {
                let a: &[Port] = self.ports_on_edge(ax, az, Dir::South, kind);
                let b: &[Port] = self.ports_on_edge(ax, az + 1, Dir::North, kind);
                proof {
                    law_shared_edge_ports_agree(*self, kind, ax as int, az as int, Dir::South);
                }
                if a.len() != b.len() {
                    errors.push(
                        AtlasFault::SouthPortsDisagree {
                            kind,
                            ax,
                            az,
                            here: a.len(),
                            there: b.len(),
                        },
                    );
                }
                ax += 1;
            }
            az += 1;
        }
        errors
    }

    /// Every port that a river link ends on, under its edge key.
    #[verifier::loop_isolation(false)]
    fn used_ports(&self) -> (used: FxHashMap<i32, Vec<i32>>)
        ensures
            forall|key: i32, id: i32|
                #![trigger list_at(lists(used@), key).contains(id)]
                list_at(lists(used@), key).contains(id) <==> self.port_used(key, id),
    {
        let mut used: FxHashMap<i32, Vec<i32>> = map_new();
        let keys: Vec<i32> = map_keys(&self.river_links);
        let mut k: usize = 0;
        while k < keys.len()
            invariant
                k <= keys@.len(),
                forall|key: i32, id: i32|
                    #![trigger list_at(lists(used@), key).contains(id)]
                    list_at(lists(used@), key).contains(id) <==> exists|j: int, i: int|
                        0 <= j < k && #[trigger] self.uses_port(keys@[j], i, key, id),
            decreases keys@.len() - k,
        {
            let cell: i32 = keys[k];
            assert(keys@.to_set().contains(cell));
            match map_get(&self.river_links, cell) {
                Some(list) => {
                    let ghost before = used@;
                    let mut i: usize = 0;
                    while i < list.len()
                        invariant
                            i <= list@.len(),
                            forall|key: i32, id: i32|
                                #![trigger list_at(lists(used@), key).contains(id)]
                                list_at(lists(used@), key).contains(id) <==> list_at(
                                    lists(before),
                                    key,
                                ).contains(id) || exists|m: int|
                                    0 <= m < i && #[trigger] self.uses_port(cell, m, key, id),
                        decreases list@.len() - i,
                    {
                        let l: Link = list[i];
                        let ghost mid = used@;
                        if l.a.kind == EndpointKind::EdgePort {
                            list_push(&mut used, l.a.ref_id, l.a.port_id);
                        }
                        let ghost mid2 = used@;
                        proof {
                            assert forall|key: i32, id: i32|
                                #![trigger list_at(lists(mid2), key).contains(id)]
                                list_at(lists(mid2), key).contains(id) <==> list_at(
                                    lists(mid),
                                    key,
                                ).contains(id) || (l.a.kind == EndpointKind::EdgePort
                                    && l.a.ref_id == key && l.a.port_id == id) by {
                                lemma_push_contains(
                                    list_at(lists(mid), l.a.ref_id),
                                    l.a.port_id,
                                    id,
                                );
                            }
                        }
                        if l.b.kind == EndpointKind::EdgePort {
                            list_push(&mut used, l.b.ref_id, l.b.port_id);
                        }
                        proof {
                            assert forall|key: i32, id: i32|
                                #![trigger list_at(lists(used@), key).contains(id)]
                                list_at(lists(used@), key).contains(id) <==> list_at(
                                    lists(before),
                                    key,
                                ).contains(id) || exists|m: int|
                                    0 <= m < i + 1 && #[trigger] self.uses_port(
                                        cell,
                                        m,
                                        key,
                                        id,
                                    ) by {
                                lemma_push_contains(
                                    list_at(lists(mid2), l.b.ref_id),
                                    l.b.port_id,
                                    id,
                                );
                                assert(list_at(lists(mid2), key).contains(id) <==> list_at(
                                    lists(mid),
                                    key,
                                ).contains(id) || (l.a.kind == EndpointKind::EdgePort
                                    && l.a.ref_id == key && l.a.port_id == id));
                                assert(self.uses_port(cell, i as int, key, id) == ends_on(
                                    l,
                                    key,
                                    id,
                                ));
                                assert(list_at(lists(mid), key).contains(id) <==> list_at(
                                    lists(before),
                                    key,
                                ).contains(id) || exists|m: int|
                                    0 <= m < i && #[trigger] self.uses_port(cell, m, key, id));
                            }
                        }
                        i += 1;
                    }
                    proof {
                        assert forall|key: i32, id: i32|
                            #![trigger list_at(lists(used@), key).contains(id)]
                            list_at(lists(used@), key).contains(id) <==> exists|j: int, i: int|
                                0 <= j < k + 1 && #[trigger] self.uses_port(keys@[j], i, key, id) by {
                            assert(list_at(lists(before), key).contains(id) <==> exists|
                                j: int,
                                i: int,
                            |
                                0 <= j < k && #[trigger] self.uses_port(keys@[j], i, key, id));
                            if exists|j: int, i: int|
                                0 <= j < k + 1 && #[trigger] self.uses_port(keys@[j], i, key, id) {
                                let (j, m) = choose|j: int, i: int|
                                    0 <= j < k + 1 && #[trigger] self.uses_port(
                                        keys@[j],
                                        i,
                                        key,
                                        id,
                                    );
                                if j == k {
                                    assert(self.uses_port(cell, m, key, id));
                                }
                            }
                            if exists|m: int|
                                0 <= m < list@.len() && #[trigger] self.uses_port(
                                    cell,
                                    m,
                                    key,
                                    id,
                                ) {
                                let m = choose|m: int|
                                    0 <= m < list@.len() && #[trigger] self.uses_port(
                                        cell,
                                        m,
                                        key,
                                        id,
                                    );
                                assert(self.uses_port(keys@[k as int], m, key, id));
                            }
                        }
                    }
                },
                None => {
                    assert(false);
                },
            }
            k += 1;
        }
        proof {
            assert forall|key: i32, id: i32|
                #![trigger list_at(lists(used@), key).contains(id)]
                list_at(lists(used@), key).contains(id) <==> self.port_used(key, id) by {
                if self.port_used(key, id) {
                    let (c, i) = choose|c: i32, i: int| #[trigger] self.uses_port(c, i, key, id);
                    assert(keys@.to_set().contains(c));
                    let j = choose|j: int| 0 <= j < keys@.len() && keys@[j] == c;
                    assert(self.uses_port(keys@[j], i, key, id));
                }
            }
        }
        used
    }
}

proof fn lemma_push_contains(s: Seq<i32>, x: i32, y: i32)
    ensures
        s.push(x).contains(y) <==> s.contains(y) || x == y,
{
    if s.contains(y) {
        let i = choose|i: int| 0 <= i < s.len() && s[i] == y;
        assert(s.push(x)[i] == y);
    }
    assert(s.push(x)[s.len() as int] == x);
    if s.push(x).contains(y) && x != y {
        let i = choose|i: int| 0 <= i < s.push(x).len() && s.push(x)[i] == y;
        assert(s[i] == y);
    }
}

/// A road link that runs from one edge of its cell to another.
pub open spec fn runs_through(l: Link) -> bool {
    l.a.kind == EndpointKind::EdgePort && l.b.kind == EndpointKind::EdgePort && l.a.ref_id
        != l.b.ref_id
}

/// Some link of the list runs through its cell.
pub open spec fn has_through(links: Seq<Link>) -> bool {
    exists|i: int| 0 <= i < links.len() && runs_through(#[trigger] links[i])
}

/// The ids of the first `n` nodes that stand on a landmass, in order.
pub open spec fn mass_ids(nodes: Seq<GraphNode>, mass: i32, n: nat) -> Seq<i32>
    decreases n,
{
    if n == 0 {
        Seq::empty()
    } else {
        let before = mass_ids(nodes, mass, (n - 1) as nat);
        if nodes[n - 1].landmass == mass {
            before.push(nodes[n - 1].id)
        } else {
            before
        }
    }
}

/// How many of the first `n` nodes share their landmass with an earlier node: the
/// roads it takes to connect every landmass.
pub open spec fn roads_needed(nodes: Seq<GraphNode>, n: nat) -> int
    decreases n,
{
    if n == 0 {
        0
    } else {
        roads_needed(nodes, (n - 1) as nat) + if mass_ids(
            nodes,
            nodes[n - 1].landmass,
            (n - 1) as nat,
        ).len() > 0 {
            1int
        } else {
            0
        }
    }
}

impl ContinentAtlas {
    /// The ids of the nodes of a landmass.
    pub open spec fn ids_on(&self, mass: i32) -> Seq<i32> {
        mass_ids(self.nodes@, mass, self.nodes@.len())
    }

    /// The road cells with a link that runs through.
    pub open spec fn through_cells(&self) -> Set<i32> {
        self.road_links@.dom().filter(|c: i32| has_through(self.road_links@[c]@))
    }

    pub open spec fn min_nodes(&self) -> int {
        if self.size / 20 > 8 {
            (self.size / 20) as int
        } else {
            8
        }
    }

    pub open spec fn min_road_cells(&self) -> int {
        if self.nodes@.len() * 4 > 24 {
            (self.nodes@.len() * 4) as int
        } else {
            24
        }
    }

    pub open spec fn min_through(&self) -> int {
        if self.min_road_cells() / 2 > 8 {
            self.min_road_cells() / 2
        } else {
            8
        }
    }

    /// The atlas has the fault, with the numbers that it tells.
    pub open spec fn has_fault(&self, f: AtlasFault) -> bool {
        match f {
            AtlasFault::SchemaMismatch => self.schema_version != SCHEMA_VERSION,
            AtlasFault::CellsSizeWrong => self.cells@.len() != self.size * self.size,
            AtlasFault::TooLittleLand { land } => land == self.land_cells() && land < self.area()
                / 20,
            AtlasFault::CollarWeak { ocean, border } => {
                &&& ocean == self.collar_sea()
                &&& border == self.collar_area()
                &&& border > 0
                &&& share_of(ocean as int, border as int) < SHARE_ENOUGH
            },
            AtlasFault::NoLakes => self.lakes@.len() == 0,
            AtlasFault::NoCoastRings => self.hydro.coasts == 0,
            AtlasFault::LakeOutlinesMissing => self.hydro.lakes == 0 && self.lakes@.len() > 0,
            AtlasFault::RiverTooShort { id } => self.draws_short(id),
            AtlasFault::LakeWithoutSpill { id } => self.lake_shut(id),
            AtlasFault::LakeNotContiguous { id } => self.lake_split(id),
            AtlasFault::LakeTouchesOcean { id } => self.lake_at_sea(id),
            AtlasFault::InlandOcean { ax, az } => inside(self.size as int, ax as int, az as int)
                && self.first_inland_ocean(cell_number(self.size as int, ax as int, az as int)),
            AtlasFault::EastPortsDisagree { kind, ax, az, here, there } => false,
            AtlasFault::SouthPortsDisagree { kind, ax, az, here, there } => false,
            AtlasFault::PortPayloadMismatch { ax, az, port } => false,
            AtlasFault::DanglingPort { key, id } => exists|i: int| #[trigger] self.dangles(key, i)
                && self.river_ports@[key]@[i].id == id,
            AtlasFault::RiverVanishes { ax, az } => inside(self.size as int, ax as int, az as int)
                && self.vanishes(cell_number(self.size as int, ax as int, az as int)),
            AtlasFault::RiverClimbs { ax, az, from, down_ax, down_az, to } => {
                let c = cell_number(self.size as int, ax as int, az as int);
                &&& inside(self.size as int, ax as int, az as int)
                &&& inside(self.size as int, down_ax as int, down_az as int)
                &&& self.climbs(c)
                &&& from == cell_elevation(self.cells@[c])
                &&& self.river_receiver@[c] == cell_number(
                    self.size as int,
                    down_ax as int,
                    down_az as int,
                )
                &&& to == cell_elevation(self.cells@[self.river_receiver@[c] as int])
            },
            AtlasFault::NoNodes => self.nodes@.len() == 0,
            AtlasFault::RoadsNotConnected { landmass, connected, of } => {
                let ids = self.ids_on(landmass);
                &&& ids.len() >= 2
                &&& of == ids.len()
                &&& connected == linked_count(ids, self.primary_road_edges@, ids.len())
                &&& connected < of
            },
            AtlasFault::TooFewNodes { nodes, min } => {
                &&& nodes == self.nodes@.len()
                &&& min == self.min_nodes()
                &&& 0 < nodes < min
            },
            AtlasFault::PrimaryEdgesStarved { edges, need } => {
                &&& edges == self.primary_road_edges@.len()
                &&& need == roads_needed(self.nodes@, self.nodes@.len())
                &&& edges < need
            },
            AtlasFault::RoadCellsStarved { cells, min } => {
                &&& cells == self.road_links@.dom().len()
                &&& min == self.min_road_cells()
                &&& self.nodes@.len() > 0
                &&& cells < min
            },
            AtlasFault::ThroughLinksStarved { cells } => cells == self.through_cells().len()
                && self.nodes@.len() > 0 && cells < self.min_through(),
            AtlasFault::PopulationOnWater { cells } => cells == self.drowned_cells() && cells > 0,
            AtlasFault::NoPopulatedLand => self.dry_cells() > 0 && self.settled_cells() == 0,
            AtlasFault::PopulationNotSparse { occupied, land } => {
                &&& occupied == self.settled_cells()
                &&& land == self.dry_cells()
                &&& land > 0
                &&& share_of(occupied as int, land as int) > SHARE_HALF
            },
        }
    }

    /// A river of that id is drawn with fewer than two points.
    pub open spec fn draws_short(&self, id: i32) -> bool {
        exists|i: int| #[trigger] self.short_river(i, id)
    }

    /// A lake of that id spills nowhere.
    pub open spec fn lake_shut(&self, id: i32) -> bool {
        exists|l: int| #[trigger] self.lake_named(l, id) && self.lakes@[l].spill_cell < 0
    }

    /// A lake of that id does not hang together.
    pub open spec fn lake_split(&self, id: i32) -> bool {
        exists|l: int| #[trigger]
            self.lake_named(l, id) && !contiguous(self.size as int, self.lakes@[l].cells@)
    }

    /// A lake of that id has the sea beside it.
    pub open spec fn lake_at_sea(&self, id: i32) -> bool {
        exists|l: int| #[trigger] self.lake_named(l, id) && self.at_sea(self.lakes@[l].cells@)
    }

    pub open spec fn short_river(&self, i: int, id: i32) -> bool {
        0 <= i < self.hydro.rivers@.len() && self.hydro.rivers@[i].0 == id
            && self.hydro.rivers@[i].1 < 2
    }

    pub open spec fn lake_named(&self, l: int, id: i32) -> bool {
        0 <= l < self.lakes@.len() && self.lakes@[l].id == id
    }

    /// Every listed fault is one that the atlas has.
    pub open spec fn all_true(&self, errors: Seq<AtlasFault>) -> bool {
        forall|i: int|
            0 <= i < errors.len() ==> self.has_fault(#[trigger] errors[i]) && has_share(errors[i])
    }
}

impl ContinentAtlas {
    fn validate_population(&self) -> (errors: Vec<AtlasFault>)
        requires
            self.grid_ok(),
        ensures
            self.all_true(errors@),
            errors@.len() == 0 ==> self.drowned_cells() == 0 && (self.dry_cells() > 0
                ==> self.settled_cells() > 0 && share_of(
                    self.settled_cells(),
                    self.dry_cells(),
                ) <= SHARE_HALF),
            errors@ == self.people_faults(),
    {
        let ghost dry = |c: int| !wet(self.cells@, c);
        let ghost peopled = |c: int| !wet(self.cells@, c) && cell_pop(self.cells@[c]) > 0;
        let ghost drowned = |c: int| wet(self.cells@, c) && cell_pop(self.cells@[c]) > 0;
        let ghost n = self.size as int;
        proof {
            lemma_side(n);
        }
        let mut errors: Vec<AtlasFault> = Vec::new();
        let mut land: usize = 0;
        let mut occupied: usize = 0;
        let mut water_occupied: usize = 0;
        let mut i: usize = 0;
        while i < self.cells.len()
            invariant
                n == self.size,
                self.grid_ok(),
                i <= self.cells@.len(),
                self.cells@.len() == n * n,
                dry == |c: int| !wet(self.cells@, c),
                peopled == |c: int| !wet(self.cells@, c) && cell_pop(self.cells@[c]) > 0,
                drowned == |c: int| wet(self.cells@, c) && cell_pop(self.cells@[c]) > 0,
                land == count_upto(dry, i as nat),
                occupied == count_upto(peopled, i as nat),
                water_occupied == count_upto(drowned, i as nat),
                land <= i,
                occupied <= land,
                water_occupied <= i,
            decreases self.cells@.len() - i,
        {
            assert(is_cell(n, i as int) && cell_valid(self.cells@[i as int]));
            let cell: i32 = self.cells[i];
            let pop: i32 = population(cell);
            if is_land(biome(cell)) {
                land += 1;
                if pop > 0 {
                    occupied += 1;
                }
            } else if pop > 0 {
                water_occupied += 1;
            }
            i += 1;
        }
        proof {
            assert(self.area() == self.cells@.len());
        }
        if water_occupied > 0 {
            errors.push(AtlasFault::PopulationOnWater { cells: water_occupied });
        }
        if land == 0 {
            assert(errors@ =~= self.people_faults());
            return errors;
        }
        if occupied == 0 {
            errors.push(AtlasFault::NoPopulatedLand);
        }
        if share(occupied, land) > SHARE_HALF {
            errors.push(AtlasFault::PopulationNotSparse { occupied, land });
        }
        assert(errors@ =~= self.people_faults());
        errors
    }

    fn receiver_sink_near(&self, cell: usize) -> (r: bool)
        requires
            self.grid_ok(),
            is_cell(self.size as int, cell as int),
        ensures
            r == self.water_beside(cell as int),
    {
        let mut k: usize = 0;
        while k < 4
            invariant
                k <= 4,
                self.grid_ok(),
                is_cell(self.size as int, cell as int),
                forall|j: int| 0 <= j < k ==> !#[trigger] self.water_on_side(cell as int, j),
            decreases 4 - k,
        {
            match neighbor(self.size, cell, k) {
                Some(nb) => {
                    assert(cell_valid(self.cells@[nb as int]));
                    if is_water(biome(self.cells[nb])) {
                        assert(self.water_on_side(cell as int, k as int));
                        return true;
                    }
                },
                None => {},
            }
            assert(!self.water_on_side(cell as int, k as int));
            k += 1;
        }
        false
    }

    /// Whether the river in a cell comes to water.
    fn comes_to_water(&self, start: usize) -> (r: bool)
        requires
            self.grid_ok(),
            self.rivers_on_grid(),
            self.river_receiver@.len() == self.cells@.len(),
            is_cell(self.size as int, start as int),
        ensures
            r == self.river_ends(start as int, self.area()),
    {
        let ghost n = self.size as int;
        proof {
            lemma_side(n);
        }
        let mut fuel: usize = self.size * self.size;
        let mut walk: usize = start;
        while fuel > 0
            invariant
                n == self.size,
                self.grid_ok(),
                self.rivers_on_grid(),
                self.river_receiver@.len() == self.cells@.len(),
                0 < n * n <= i32::MAX,
                is_cell(n, walk as int),
                self.river_ends(start as int, self.area()) == self.river_ends(
                    walk as int,
                    fuel as nat,
                ),
            decreases fuel,
        {
            assert(cell_valid(self.cells@[walk as int]));
            if is_water(biome(self.cells[walk])) {
                return true;
            }
            let mouth: bool = match map_get(&self.river_links, walk as i32) {
                Some(list) => cell_is_river_mouth(list.as_slice()),
                None => false,
            };
            assert(mouth == is_mouth(lists(self.river_links@), walk as int));
            if mouth {
                return true;
            }
            let next: i32 = self.river_receiver[walk];
            if next < 0 {
                return self.receiver_sink_near(walk);
            }
            let at: usize = next as usize;
            assert(is_cell(n, at as int) && cell_valid(self.cells@[at as int]));
            if is_water(biome(self.cells[at])) {
                return true;
            }
            walk = at;
            fuel -= 1;
        }
        false
    }

    /// The ports on the edge `key` that no link ends on, as far as the list of
    /// errors has room.
    fn check_ports(
        &self,
        key: i32,
        used: &FxHashMap<i32, Vec<i32>>,
        errors: &mut Vec<AtlasFault>,
    )
        requires
            self.all_true(old(errors)@),
            old(errors)@.len() < TOLD,
            self.river_ports@.contains_key(key),
            forall|key: i32, id: i32|
                #![trigger list_at(lists(used@), key).contains(id)]
                list_at(lists(used@), key).contains(id) <==> self.port_used(key, id),
        ensures
            self.all_true(final(errors)@),
            final(errors)@.len() >= old(errors)@.len(),
            final(errors)@.len() == 0 ==> forall|i: int| !#[trigger] self.dangles(key, i),
            final(errors)@ == first_told(
                old(errors)@ + self.port_faults(key, self.river_ports@[key]@.len()),
            ),
    {
        match map_get(&self.river_ports, key) {
            Some(ports) => {
                let mut i: usize = 0;
                while i < ports.len()
                    invariant
                        i <= ports@.len(),
                        self.river_ports@.contains_key(key),
                        self.river_ports@[key] == *ports,
                        self.all_true(errors@),
                        errors@.len() >= old(errors)@.len(),
                        forall|key: i32, id: i32|
                            #![trigger list_at(lists(used@), key).contains(id)]
                            list_at(lists(used@), key).contains(id) <==> self.port_used(key, id),
                        errors@.len() == 0 ==> forall|j: int|
                            j < i ==> !#[trigger] self.dangles(key, j),
                        errors@ == old(errors)@ + self.port_faults(key, i as nat),
                        errors@.len() < TOLD,
                    decreases ports@.len() - i,
                {
                    let id: i32 = ports[i].id;
                    if !holds_id(used, key, id) {
                        assert(self.dangles(key, i as int));
                        errors.push(AtlasFault::DanglingPort { key, id });
                        assert(errors@ =~= old(errors)@ + self.port_faults(key, (i + 1) as nat));
                        if errors.len() > 20 {
                            proof {
                                let rest = self.lemma_port_faults(
                                    key,
                                    (i + 1) as nat,
                                    ports@.len(),
                                );
                                lemma_told(errors@, rest);
                                assert(old(errors)@ + self.port_faults(key, ports@.len())
                                    =~= errors@ + rest);
                            }
                            return;
                        }
                    } else {
                        assert(errors@ =~= old(errors)@ + self.port_faults(key, (i + 1) as nat));
                    }
                    i += 1;
                }
            },
            None => {},
        }
    }

    fn validate_river_termination(&self) -> (errors: Vec<AtlasFault>)
        requires
            self.grid_ok(),
            self.rivers_on_grid(),
        ensures
            self.all_true(errors@),
            errors@.len() == 0 ==> forall|key: i32, i: int| !#[trigger] self.dangles(key, i),
            errors@.len() == 0 ==> forall|c: int| !#[trigger] self.vanishes(c),
            exists|keys: Seq<i32>, cells: Seq<i32>|
                #![trigger self.end_faults(keys, cells)]
                walks(keys, self.river_ports@.dom()) && walks(cells, self.river_links@.dom())
                    && errors@ == first_told(self.end_faults(keys, cells)),
    {
        let ghost n = self.size as int;
        let mut errors: Vec<AtlasFault> = Vec::new();
        let used: FxHashMap<i32, Vec<i32>> = self.used_ports();
        let keys: Vec<i32> = map_keys(&self.river_ports);
        let cells: Vec<i32> = map_keys(&self.river_links);
        let ghost rivers = if self.river_receiver@.len() == self.cells@.len() {
            self.vanish_faults(cells@, cells@.len())
        } else {
            Seq::empty()
        };
        assert(walks(keys@, self.river_ports@.dom()) && walks(cells@, self.river_links@.dom()));
        let mut k: usize = 0;
        while k < keys.len()
            invariant
                k <= keys@.len(),
                walks(keys@, self.river_ports@.dom()),
                walks(cells@, self.river_links@.dom()),
                rivers == (if self.river_receiver@.len() == self.cells@.len() {
                    self.vanish_faults(cells@, cells@.len())
                } else {
                    Seq::empty()
                }),
                errors@ == self.ports_faults(keys@, k as nat),
                errors@.len() < TOLD,
                self.all_true(errors@),
                forall|key: i32, id: i32|
                    #![trigger list_at(lists(used@), key).contains(id)]
                    list_at(lists(used@), key).contains(id) <==> self.port_used(key, id),
                errors@.len() == 0 ==> forall|j: int, i: int|
                    0 <= j < k ==> !#[trigger] self.dangles(keys@[j], i),
            decreases keys@.len() - k,
        {
            assert(keys@.to_set().contains(keys@[k as int]));
            self.check_ports(keys[k], &used, &mut errors);
            if errors.len() > 20 {
                proof {
                    let here = self.ports_faults(keys@, (k + 1) as nat);
                    let rest = self.lemma_ports_faults(keys@, (k + 1) as nat, keys@.len());
                    let tail = here.skip(TOLD as int) + rest + rivers;
                    lemma_told(errors@, tail);
                    assert(self.end_faults(keys@, cells@) =~= errors@ + tail);
                }
                return errors;
            }
            k += 1;
        }
        proof {
            assert forall|key: i32, i: int| errors@.len() == 0 implies !#[trigger] self.dangles(
                key,
                i,
            ) by {
                if self.dangles(key, i) {
                    assert(keys@.to_set().contains(key));
                    let j = choose|j: int| 0 <= j < keys@.len() && keys@[j] == key;
                    assert(!self.dangles(keys@[j], i));
                }
            }
        }
        if self.river_receiver.len() != self.cells.len() {
            assert(first_told(self.end_faults(keys@, cells@)) =~= errors@);
            return errors;
        }
        let ghost loose = errors@;
        let ghost dangling = errors@.len() > 0;
        let mut k: usize = 0;
        while k < cells.len()
            invariant
                k <= cells@.len(),
                n == self.size,
                self.grid_ok(),
                self.rivers_on_grid(),
                self.river_receiver@.len() == self.cells@.len(),
                cells@.to_set() == self.river_links@.dom(),
                walks(keys@, self.river_ports@.dom()),
                walks(cells@, self.river_links@.dom()),
                loose == self.ports_faults(keys@, keys@.len()),
                errors@ == loose + self.vanish_faults(cells@, k as nat),
                errors@.len() < TOLD,
                self.all_true(errors@),
                dangling ==> errors@.len() > 0,
                errors@.len() == 0 ==> forall|j: int|
                    0 <= j < k ==> !#[trigger] self.vanishes(cells@[j] as int),
            decreases cells@.len() - k,
        {
            let cell: i32 = cells[k];
            proof {
                assert(cells@.to_set().contains(cell));
                assert(self.river_links@.contains_key(cell));
                lemma_cell_coords(n, cell as int);
                lemma_side(n);
            }
            if !self.comes_to_water(cell as usize) {
                let ax: i32 = cell % self.size as i32;
                let az: i32 = cell / self.size as i32;
                assert(self.vanishes(cell as int));
                assert(cell_number(n, ax as int, az as int) == cell);
                errors.push(AtlasFault::RiverVanishes { ax, az });
                assert(errors@ =~= loose + self.vanish_faults(cells@, (k + 1) as nat));
                if errors.len() > 20 {
                    proof {
                        let rest = self.lemma_vanish_faults(
                            cells@,
                            (k + 1) as nat,
                            cells@.len(),
                        );
                        lemma_told(errors@, rest);
                        assert(self.end_faults(keys@, cells@) =~= errors@ + rest);
                    }
                    return errors;
                }
            } else {
                assert(errors@ =~= loose + self.vanish_faults(cells@, (k + 1) as nat));
            }
            k += 1;
        }
        proof {
            assert forall|c: int| errors@.len() == 0 implies !#[trigger] self.vanishes(c) by {
                if self.vanishes(c) {
                    lemma_side(n);
                    assert(cells@.to_set().contains(c as i32));
                    let j = choose|j: int| 0 <= j < cells@.len() && cells@[j] == c as i32;
                    assert(!self.vanishes(cells@[j] as int));
                }
            }
            assert(first_told(self.end_faults(keys@, cells@)) =~= errors@);
        }
        errors
    }

    proof fn lemma_port_faults(&self, key: i32, n: nat, m: nat) -> (rest: Seq<AtlasFault>)
        requires
            n <= m,
        ensures
            self.port_faults(key, m) == self.port_faults(key, n) + rest,
        decreases m,
    {
        if n == m {
            assert(self.port_faults(key, m) =~= self.port_faults(key, n) + Seq::empty());
            Seq::empty()
        } else {
            let rest = self.lemma_port_faults(key, n, (m - 1) as nat);
            let id = self.river_ports@[key]@[m - 1].id;
            let more = rest + one_if(
                !self.port_used(key, id),
                AtlasFault::DanglingPort { key, id },
            );
            assert(self.port_faults(key, m) =~= self.port_faults(key, n) + more);
            more
        }
    }

    proof fn lemma_ports_faults(&self, keys: Seq<i32>, n: nat, m: nat) -> (rest: Seq<AtlasFault>)
        requires
            n <= m,
        ensures
            self.ports_faults(keys, m) == self.ports_faults(keys, n) + rest,
        decreases m,
    {
        if n == m {
            assert(self.ports_faults(keys, m) =~= self.ports_faults(keys, n) + Seq::empty());
            Seq::empty()
        } else {
            let rest = self.lemma_ports_faults(keys, n, (m - 1) as nat);
            let more = rest + self.port_faults(
                keys[m - 1],
                self.river_ports@[keys[m - 1]]@.len(),
            );
            assert(self.ports_faults(keys, m) =~= self.ports_faults(keys, n) + more);
            more
        }
    }

    proof fn lemma_vanish_faults(&self, cells: Seq<i32>, n: nat, m: nat) -> (rest: Seq<AtlasFault>)
        requires
            n <= m,
        ensures
            self.vanish_faults(cells, m) == self.vanish_faults(cells, n) + rest,
        decreases m,
    {
        if n == m {
            assert(self.vanish_faults(cells, m) =~= self.vanish_faults(cells, n) + Seq::empty());
            Seq::empty()
        } else {
            let rest = self.lemma_vanish_faults(cells, n, (m - 1) as nat);
            let last = one_if(
                self.vanishes(cells[m - 1] as int),
                AtlasFault::RiverVanishes {
                    ax: cell_x(self.size as int, cells[m - 1] as int) as i32,
                    az: cell_z(self.size as int, cells[m - 1] as int) as i32,
                },
            );
            let more = rest + last;
            assert(self.vanish_faults(cells, m) =~= self.vanish_faults(cells, n) + more);
            more
        }
    }

    proof fn lemma_climb_faults(&self, n: nat, m: nat) -> (rest: Seq<AtlasFault>)
        requires
            n <= m,
        ensures
            self.climb_faults(m) == self.climb_faults(n) + rest,
        decreases m,
    {
        if n == m {
            assert(self.climb_faults(m) =~= self.climb_faults(n) + Seq::empty());
            Seq::empty()
        } else {
            let rest = self.lemma_climb_faults(n, (m - 1) as nat);
            let more = rest + one_if(self.climbs(m - 1), self.climb_told(m - 1));
            assert(self.climb_faults(m) =~= self.climb_faults(n) + more);
            more
        }
    }

    proof fn lemma_no_climbs(&self, n: nat)
        requires
            self.river_receiver@.len() != self.cells@.len(),
        ensures
            self.climb_faults(n).len() == 0,
        decreases n,
    {
        if n > 0 {
            self.lemma_no_climbs((n - 1) as nat);
        }
    }

    fn validate_river_monotonicity(&self) -> (errors: Vec<AtlasFault>)
        requires
            self.grid_ok(),
            self.rivers_on_grid(),
        ensures
            self.all_true(errors@),
            errors@.len() == 0 ==> forall|c: int| !#[trigger] self.climbs(c),
            errors@ == first_told(self.climb_faults(self.area())),
    {
        let ghost n = self.size as int;
        let mut errors: Vec<AtlasFault> = Vec::new();
        if self.river_receiver.len() != self.cells.len() {
            proof {
                self.lemma_no_climbs(self.area());
            }
            assert(errors@ =~= first_told(self.climb_faults(self.area())));
            return errors;
        }
        proof {
            lemma_side(n);
        }
        let mut i: usize = 0;
        while i < self.cells.len()
            invariant
                n == self.size,
                self.grid_ok(),
                self.rivers_on_grid(),
                self.river_receiver@.len() == self.cells@.len(),
                0 < n * n <= i32::MAX,
                i <= self.cells@.len(),
                self.all_true(errors@),
                errors@.len() == 0 ==> forall|c: int| c < i ==> !#[trigger] self.climbs(c),
                errors@ == self.climb_faults(i as nat),
                errors@.len() < TOLD,
                self.cells@.len() == self.area(),
            decreases self.cells@.len() - i,
        {
            assert(is_cell(n, i as int) && cell_valid(self.cells@[i as int]));
            let down: i32 = self.river_receiver[i];
            if is_land(biome(self.cells[i])) && map_get(&self.river_links, i as i32).is_some()
                && down >= 0 {
                let at: usize = down as usize;
                assert(is_cell(n, at as int) && cell_valid(self.cells@[at as int]));
                let e0: i32 = elevation(self.cells[i]);
                let e1: i32 = elevation(self.cells[at]);
                if !is_water(biome(self.cells[at])) && e1 > e0 {
                    proof {
                        lemma_cell_coords(n, i as int);
                        lemma_cell_coords(n, at as int);
                    }
                    assert(self.climbs(i as int));
                    errors.push(
                        AtlasFault::RiverClimbs {
                            ax: (i % self.size) as i32,
                            az: (i / self.size) as i32,
                            from: e0,
                            down_ax: (at % self.size) as i32,
                            down_az: (at / self.size) as i32,
                            to: e1,
                        },
                    );
                    assert(errors@ =~= self.climb_faults((i + 1) as nat));
                    if errors.len() > 20 {
                        proof {
                            let rest = self.lemma_climb_faults((i + 1) as nat, self.area());
                            lemma_told(errors@, rest);
                        }
                        return errors;
                    }
                }
            }
            proof {
                if !self.climbs(i as int) {
                    assert(self.climb_faults((i + 1) as nat) =~= self.climb_faults(i as nat));
                }
            }
            i += 1;
        }
        assert(errors@ =~= first_told(self.climb_faults(self.area())));
        errors
    }
}

/// Whether the list under `key` holds `id`.
fn holds_id(m: &FxHashMap<i32, Vec<i32>>, key: i32, id: i32) -> (r: bool)
    ensures
        r == list_at(lists(m@), key).contains(id),
{
    match map_get(m, key) {
        Some(list) => {
            let mut i: usize = 0;
            while i < list.len()
                invariant
                    i <= list@.len(),
                    m@.contains_key(key),
                    m@[key] == *list,
                    forall|j: int| 0 <= j < i ==> #[trigger] list@[j] != id,
                decreases list@.len() - i,
            {
                if list[i] == id {
                    assert(list@[i as int] == id);
                    return true;
                }
                i += 1;
            }
            false
        },
        None => false,
    }
}

fn any_through(links: &Vec<Link>) -> (r: bool)
    ensures
        r == has_through(links@),
{
    let mut i: usize = 0;
    while i < links.len()
        invariant
            i <= links@.len(),
            forall|j: int| 0 <= j < i ==> !runs_through(#[trigger] links@[j]),
        decreases links@.len() - i,
    {
        let l: Link = links[i];
        if l.a.kind == EndpointKind::EdgePort && l.b.kind == EndpointKind::EdgePort && l.a.ref_id
            != l.b.ref_id {
            assert(runs_through(links@[i as int]));
            return true;
        }
        i += 1;
    }
    false
}

/// The ids of the first `n` nodes of a landmass.
fn ids_of_mass(nodes: &Vec<GraphNode>, mass: i32, n: usize) -> (ids: Vec<i32>)
    requires
        n <= nodes@.len(),
    ensures
        ids@ == mass_ids(nodes@, mass, n as nat),
{
    let mut ids: Vec<i32> = Vec::new();
    let mut i: usize = 0;
    while i < n
        invariant
            i <= n <= nodes@.len(),
            ids@ == mass_ids(nodes@, mass, i as nat),
        decreases n - i,
    {
        if nodes[i].landmass == mass {
            ids.push(nodes[i].id);
        }
        i += 1;
    }
    ids
}

proof fn lemma_mass_seen(nodes: Seq<GraphNode>, mass: i32, n: nat)
    requires
        n <= nodes.len(),
    ensures
        mass_ids(nodes, mass, n).len() > 0 <==> exists|x: int|
            0 <= x < n && (#[trigger] nodes[x]).landmass == mass,
    decreases n,
{
    if n > 0 {
        lemma_mass_seen(nodes, mass, (n - 1) as nat);
        if exists|x: int| 0 <= x < n && (#[trigger] nodes[x]).landmass == mass {
            let x = choose|x: int| 0 <= x < n && (#[trigger] nodes[x]).landmass == mass;
            if x < n - 1 {
                assert(nodes[x].landmass == mass);
            }
        }
        if nodes[n - 1].landmass == mass {
            assert(nodes[n - 1].landmass == mass);
        }
    }
}

proof fn lemma_first_with_mass(nodes: Seq<GraphNode>, mass: i32, n: nat) -> (x: int)
    requires
        n <= nodes.len(),
        mass_ids(nodes, mass, n).len() > 0,
    ensures
        0 <= x < n,
        nodes[x].landmass == mass,
        mass_ids(nodes, mass, x as nat).len() == 0,
    decreases n,
{
    if mass_ids(nodes, mass, (n - 1) as nat).len() > 0 {
        lemma_first_with_mass(nodes, mass, (n - 1) as nat)
    } else {
        n - 1
    }
}

impl ContinentAtlas {
    /// Which landmasses the primary roads leave apart.
    fn check_connections(&self, errors: &mut Vec<AtlasFault>) -> (need: usize)
        requires
            self.all_true(old(errors)@),
        ensures
            self.all_true(final(errors)@),
            final(errors)@.len() == 0 ==> forall|mass: i32|
                (#[trigger] self.ids_on(mass)).len() >= 2 ==> linked_count(
                    self.ids_on(mass),
                    self.primary_road_edges@,
                    self.ids_on(mass).len(),
                ) >= self.ids_on(mass).len(),
            need == roads_needed(self.nodes@, self.nodes@.len()),
            final(errors)@ == old(errors)@ + self.mass_faults(self.nodes@.len()),
    {
        let ghost edges = self.primary_road_edges@;
        let mut need: usize = 0;
        let mut x: usize = 0;
        while x < self.nodes.len()
            invariant
                x <= self.nodes@.len(),
                need <= x,
                edges == self.primary_road_edges@,
                need == roads_needed(self.nodes@, x as nat),
                errors@ == old(errors)@ + self.mass_faults(x as nat),
                self.all_true(errors@),
                errors@.len() == 0 ==> forall|mass: i32|
                    mass_ids(self.nodes@, mass, x as nat).len() > 0 && (#[trigger] self.ids_on(
                        mass,
                    )).len() >= 2 ==> linked_count(
                        self.ids_on(mass),
                        edges,
                        self.ids_on(mass).len(),
                    ) >= self.ids_on(mass).len(),
            decreases self.nodes@.len() - x,
        {
            let mass: i32 = self.nodes[x].landmass;
            let known: bool = ids_of_mass(&self.nodes, mass, x).len() > 0;
            if known {
                need += 1;
            } else {
                let ids: Vec<i32> = ids_of_mass(&self.nodes, mass, self.nodes.len());
                if ids.len() >= 2 {
                    let connected: usize = count_linked(&ids, &self.primary_road_edges);
                    if connected < ids.len() {
                        errors.push(
                            AtlasFault::RoadsNotConnected {
                                landmass: mass,
                                connected,
                                of: ids.len(),
                            },
                        );
                    }
                }
            }
            assert(errors@ =~= old(errors)@ + self.mass_faults((x + 1) as nat));
            proof {
                assert forall|other: i32|
                    errors@.len() == 0 && mass_ids(self.nodes@, other, (x + 1) as nat).len() > 0
                        && (#[trigger] self.ids_on(other)).len() >= 2 implies linked_count(
                    self.ids_on(other),
                    edges,
                    self.ids_on(other).len(),
                ) >= self.ids_on(other).len() by {
                    if other != mass {
                        assert(mass_ids(self.nodes@, other, x as nat).len() > 0);
                    }
                }
            }
            x += 1;
        }
        need
    }

    /// How many road cells have a link that runs through.
    #[verifier::loop_isolation(false)]
    fn count_through(&self) -> (r: usize)
        ensures
            r == self.through_cells().len(),
    {
        let keys: Vec<i32> = map_keys(&self.road_links);
        let ghost mut found = Set::<i32>::empty();
        let mut r: usize = 0;
        let mut k: usize = 0;
        while k < keys.len()
            invariant
                k <= keys@.len(),
                r <= k,
                found.finite(),
                r == found.len(),
                forall|c: i32| #[trigger]
                    found.contains(c) <==> has_through(self.road_links@[c]@) && exists|j: int|
                        0 <= j < k && #[trigger] keys@[j] == c,
            decreases keys@.len() - k,
        {
            let cell: i32 = keys[k];
            assert(keys@.to_set().contains(cell));
            assert(!found.contains(cell)) by {
                if found.contains(cell) {
                    let j = choose|j: int| 0 <= j < k && #[trigger] keys@[j] == cell;
                    assert(keys@[j] != keys@[k as int]);
                }
            }
            match map_get(&self.road_links, cell) {
                Some(list) => {
                    if any_through(list) {
                        r += 1;
                        proof {
                            found = found.insert(cell);
                        }
                    }
                },
                None => {},
            }
            proof {
                assert forall|c: i32| #[trigger]
                    found.contains(c) <==> has_through(self.road_links@[c]@) && exists|j: int|
                        0 <= j < k + 1 && #[trigger] keys@[j] == c by {
                    if c == cell {
                        assert(keys@[k as int] == c);
                    }
                }
            }
            k += 1;
        }
        proof {
            assert(found =~= self.through_cells()) by {
                assert forall|c: i32| found.contains(c) == self.through_cells().contains(c) by {
                    if self.through_cells().contains(c) {
                        assert(keys@.to_set().contains(c));
                        let j = choose|j: int| 0 <= j < keys@.len() && keys@[j] == c;
                        assert(keys@[j] == c);
                    }
                    if found.contains(c) {
                        let j = choose|j: int| 0 <= j < keys@.len() && #[trigger] keys@[j] == c;
                        assert(keys@.to_set().contains(keys@[j]));
                    }
                }
            }
        }
        r
    }

    fn validate_road_backbone(&self) -> (errors: Vec<AtlasFault>)
        requires
            4 * self.nodes@.len() <= usize::MAX,
        ensures
            self.all_true(errors@),
            errors@.len() == 0 ==> {
                &&& self.nodes@.len() >= self.min_nodes()
                &&& self.nodes@.len() > 0
                &&& forall|mass: i32|
                    (#[trigger] self.ids_on(mass)).len() >= 2 ==> linked_count(
                        self.ids_on(mass),
                        self.primary_road_edges@,
                        self.ids_on(mass).len(),
                    ) >= self.ids_on(mass).len()
                &&& self.primary_road_edges@.len() >= roads_needed(
                    self.nodes@,
                    self.nodes@.len(),
                )
                &&& self.road_links@.dom().len() >= self.min_road_cells()
                &&& self.through_cells().len() >= self.min_through()
            },
            errors@ == self.road_faults(),
    {
        let mut errors: Vec<AtlasFault> = Vec::new();
        if self.nodes.len() == 0 {
            errors.push(AtlasFault::NoNodes);
            assert(errors@ =~= self.road_faults());
            return errors;
        }
        let need: usize = self.check_connections(&mut errors);
        let ghost split = errors@;
        let min_nodes: usize = if self.size / 20 > 8 {
            self.size / 20
        } else {
            8
        };
        let nodes: usize = self.nodes.len();
        self.tell_if(
            &mut errors,
            nodes < min_nodes,
            AtlasFault::TooFewNodes { nodes, min: min_nodes },
        );
        let edges: usize = self.primary_road_edges.len();
        self.tell_if(
            &mut errors,
            edges < need,
            AtlasFault::PrimaryEdgesStarved { edges, need },
        );
        let min_cells: usize = if nodes * 4 > 24 {
            nodes * 4
        } else {
            24
        };
        let cells: usize = map_len(&self.road_links);
        self.tell_if(
            &mut errors,
            cells < min_cells,
            AtlasFault::RoadCellsStarved { cells, min: min_cells },
        );
        let through: usize = self.count_through();
        let min_through: usize = if min_cells / 2 > 8 {
            min_cells / 2
        } else {
            8
        };
        self.tell_if(
            &mut errors,
            through < min_through,
            AtlasFault::ThroughLinksStarved { cells: through },
        );
        assert(split =~= self.mass_faults(self.nodes@.len()));
        errors
    }

    /// Adds a fault to a list, where it is one.
    fn tell_if(&self, errors: &mut Vec<AtlasFault>, there: bool, f: AtlasFault)
        requires
            self.all_true(old(errors)@),
            there ==> self.has_fault(f) && has_share(f),
        ensures
            self.all_true(final(errors)@),
            final(errors)@ == old(errors)@ + one_if(there, f),
    {
        if there {
            errors.push(f);
        }
        assert(errors@ =~= old(errors)@ + one_if(there, f));
        assert forall|i: int| 0 <= i < errors@.len() implies self.has_fault(#[trigger] errors@[i])
            && has_share(errors@[i]) by {
            if i < old(errors)@.len() {
                assert(errors@[i] == old(errors)@[i]);
            }
        }
    }

    /// Adds faults to a list.
    fn tell_all(&self, errors: &mut Vec<AtlasFault>, more: Vec<AtlasFault>)
        requires
            self.all_true(old(errors)@),
            self.all_true(more@),
        ensures
            self.all_true(final(errors)@),
            final(errors)@ == old(errors)@ + more@,
    {
        let mut more: Vec<AtlasFault> = more;
        errors.append(&mut more);
    }

    proof fn lemma_whole_sound(&self)
        requires
            self.whole_faults().len() == 0,
        ensures
            self.schema_version == SCHEMA_VERSION,
            self.land_cells() >= self.area() / 20,
            self.collar_area() > 0 ==> share_of(self.collar_sea(), self.collar_area())
                >= SHARE_ENOUGH,
            self.lakes@.len() > 0,
            self.hydro.coasts != 0,
            self.hydro.lakes != 0,
    {
    }

    /// What is wrong with the atlas as a whole.
    #[verifier::rlimit(40)]
    fn validate_whole(&self) -> (errors: Vec<AtlasFault>)
        requires
            self.grid_ok(),
            self.cells@.len() == self.size * self.size,
        ensures
            self.all_true(errors@),
            errors@ == self.whole_faults(),
    {
        let mut errors: Vec<AtlasFault> = Vec::new();
        let schema: bool = self.schema_version != SCHEMA_VERSION;
        self.tell_if(&mut errors, schema, AtlasFault::SchemaMismatch);
        assert(errors@ =~= one_if(schema, AtlasFault::SchemaMismatch));
        proof {
            lemma_side(self.size as int);
        }
        let count: Tally = self.tally();
        self.tell_if(
            &mut errors,
            count.land < self.size * self.size / 20,
            AtlasFault::TooLittleLand { land: count.land },
        );
        proof {
            self.lemma_collar_fits((self.size * self.size) as nat);
        }
        self.tell_if(
            &mut errors,
            count.border > 0 && share(count.ocean, count.border) < SHARE_ENOUGH,
            AtlasFault::CollarWeak { ocean: count.ocean, border: count.border },
        );
        self.tell_if(&mut errors, self.lakes.len() == 0, AtlasFault::NoLakes);
        self.tell_if(&mut errors, self.hydro.coasts == 0, AtlasFault::NoCoastRings);
        self.tell_if(
            &mut errors,
            self.hydro.lakes == 0 && self.lakes.len() > 0,
            AtlasFault::LakeOutlinesMissing,
        );
        errors
    }

    /// What is wrong with single lakes.
    fn validate_lakes(&self) -> (errors: Vec<AtlasFault>)
        requires
            self.grid_ok(),
            self.lakes_on_grid(),
        ensures
            self.all_true(errors@),
            errors@.len() == 0 ==> forall|l: int|
                0 <= l < self.lakes@.len() ==> #[trigger] self.lake_sound(l),
            errors@ == self.lake_faults(self.lakes@.len()),
    {
        let mut errors: Vec<AtlasFault> = Vec::new();
        let mut l: usize = 0;
        while l < self.lakes.len()
            invariant
                l <= self.lakes@.len(),
                self.grid_ok(),
                self.lakes_on_grid(),
                self.all_true(errors@),
                errors@.len() == 0 ==> forall|m: int| 0 <= m < l ==> #[trigger] self.lake_sound(m),
                errors@ == self.lake_faults(l as nat),
            decreases self.lakes@.len() - l,
        {
            let lake: &Lake = &self.lakes[l];
            proof {
                assert forall|i: int| 0 <= i < lake.cells@.len() implies is_cell(
                    self.size as int,
                    #[trigger] lake.cells@[i] as int,
                ) by {
                    assert(is_cell(self.size as int, self.lakes@[l as int].cells@[i] as int));
                }
                assert(self.lake_named(l as int, lake.id));
            }
            if lake.spill_cell < 0 {
                assert(self.lake_shut(lake.id));
                errors.push(AtlasFault::LakeWithoutSpill { id: lake.id });
            }
            if !self.lake_is_connected(lake) {
                assert(self.lake_split(lake.id));
                errors.push(AtlasFault::LakeNotContiguous { id: lake.id });
            }
            if self.lake_touches_ocean(lake) {
                assert(self.lake_at_sea(lake.id));
                errors.push(AtlasFault::LakeTouchesOcean { id: lake.id });
            }
            assert(errors@ =~= self.lake_faults((l + 1) as nat));
            l += 1;
        }
        errors
    }

    /// The lake spills somewhere, hangs together and lies inland.
    pub open spec fn lake_sound(&self, l: int) -> bool {
        &&& self.lakes@[l].spill_cell >= 0
        &&& contiguous(self.size as int, self.lakes@[l].cells@)
        &&& !self.at_sea(self.lakes@[l].cells@)
    }

    /// What is wrong with the drawn rivers.
    fn validate_river_lines(&self) -> (errors: Vec<AtlasFault>)
        ensures
            self.all_true(errors@),
            errors@.len() == 0 ==> forall|i: int, id: i32| !#[trigger] self.short_river(i, id),
            errors@ == self.line_faults(self.hydro.rivers@.len()),
    {
        let mut errors: Vec<AtlasFault> = Vec::new();
        let mut i: usize = 0;
        while i < self.hydro.rivers.len()
            invariant
                i <= self.hydro.rivers@.len(),
                self.all_true(errors@),
                errors@.len() == 0 ==> forall|j: int, id: i32|
                    j < i ==> !#[trigger] self.short_river(j, id),
                errors@ == self.line_faults(i as nat),
            decreases self.hydro.rivers@.len() - i,
        {
            let river: (i32, usize) = self.hydro.rivers[i];
            if river.1 < 2 {
                assert(self.short_river(i as int, river.0));
                assert(self.draws_short(river.0));
                errors.push(AtlasFault::RiverTooShort { id: river.0 });
            }
            assert(errors@ =~= self.line_faults((i + 1) as nat));
            i += 1;
        }
        errors
    }

    /// Every invariant of an atlas holds.
    pub open spec fn sound(&self) -> bool {
        forall|f: AtlasFault| !#[trigger] self.has_fault(f)
    }

    /// What is wrong with the atlas, part by part: empty exactly where every invariant
    /// holds, and each entry a fault that the atlas has. Every fault is told, but for river
    /// faults beyond the first 21 of their list.
    pub fn validate(&self) -> (errors: Vec<AtlasFault>)
        requires
            side_ok(self.size as int),
            self.cells@.len() == self.size * self.size ==> self.grid_ok()
                && self.lakes_on_grid() && self.rivers_on_grid(),
            4 * self.nodes@.len() <= usize::MAX,
        ensures
            self.all_true(errors@),
            errors@.len() == 0 <==> self.sound(),
            exists|keys: Seq<i32>, cells: Seq<i32>|
                #![trigger self.faults_told(keys, cells)]
                walks(keys, self.river_ports@.dom()) && walks(cells, self.river_links@.dom())
                    && errors@ == self.faults_told(keys, cells),
            self.cells@.len() == self.size * self.size ==> forall|f: AtlasFault|
                #[trigger] self.has_fault(f) && !told_in_part(f) ==> errors@.contains(f),
    {
        proof {
            lemma_side(self.size as int);
        }
        if self.cells.len() != self.size * self.size {
            let mut errors: Vec<AtlasFault> = Vec::new();
            if self.schema_version != SCHEMA_VERSION {
                errors.push(AtlasFault::SchemaMismatch);
            }
            errors.push(AtlasFault::CellsSizeWrong);
            assert(self.has_fault(AtlasFault::CellsSizeWrong));
            let keys: Vec<i32> = map_keys(&self.river_ports);
            let cells: Vec<i32> = map_keys(&self.river_links);
            assert(errors@ =~= self.faults_told(keys@, cells@));
            return errors;
        }
        let mut errors: Vec<AtlasFault> = self.validate_whole();
        let lines: Vec<AtlasFault> = self.validate_river_lines();
        let lakes: Vec<AtlasFault> = self.validate_lakes();
        self.tell_all(&mut errors, lines);
        self.tell_all(&mut errors, lakes);
        let inland: Vec<AtlasFault> = self.validate_inland();
        self.tell_all(&mut errors, inland);
        let ghost first = errors@;
        let mut river_edges: Vec<AtlasFault> = self.validate_edge_agreement(Kind::River);
        let mut road_edges: Vec<AtlasFault> = self.validate_edge_agreement(Kind::Road);
        let ends: Vec<AtlasFault> = self.validate_river_termination();
        let slopes: Vec<AtlasFault> = self.validate_river_monotonicity();
        let roads: Vec<AtlasFault> = self.validate_road_backbone();
        let people: Vec<AtlasFault> = self.validate_population();
        let ghost (keys, cells) = choose|keys: Seq<i32>, cells: Seq<i32>|
            #![trigger self.end_faults(keys, cells)]
            walks(keys, self.river_ports@.dom()) && walks(cells, self.river_links@.dom())
                && ends@ == first_told(self.end_faults(keys, cells));
        errors.append(&mut river_edges);
        errors.append(&mut road_edges);
        assert(errors@ =~= first);
        self.tell_all(&mut errors, ends);
        self.tell_all(&mut errors, slopes);
        self.tell_all(&mut errors, roads);
        self.tell_all(&mut errors, people);
        assert(errors@ == self.faults_told(keys, cells));
        assert forall|f: AtlasFault| #[trigger]
            self.has_fault(f) && !told_in_part(f) implies errors@.contains(f) by {
            self.law_every_fault_is_told(keys, cells, f);
        }
        proof {
            if errors@.len() == 0 {
                self.lemma_whole_sound();
                assert forall|f: AtlasFault| !#[trigger] self.has_fault(f) by {
                    self.lemma_no_fault(f);
                }
            } else {
                assert(self.has_fault(errors@[0]));
            }
        }
        errors
    }

    /// The first sea cell that is cut off, told as a fault.
    fn validate_inland(&self) -> (errors: Vec<AtlasFault>)
        requires
            self.grid_ok(),
        ensures
            self.all_true(errors@),
            errors@ == self.inland_faults(),
            errors@.len() == 0 ==> forall|c: int|
                is_cell(self.size as int, c) && self.ocean_at(c) ==> #[trigger] self.open_ocean(c),
    {
        let mut errors: Vec<AtlasFault> = Vec::new();
        match self.first_inland_ocean_cell() {
            Some(cell) => {
                proof {
                    lemma_cell_coords(self.size as int, cell as int);
                    assert(self.first_inland_ocean(cell as int));
                    let c = choose|c: int| #[trigger] self.first_inland_ocean(c);
                    assert(c == cell) by {
                        if c < cell {
                            assert(self.open_ocean(c));
                        }
                        if cell < c {
                            assert(self.open_ocean(cell as int));
                        }
                    }
                }
                errors.push(
                    AtlasFault::InlandOcean {
                        ax: (cell % self.size) as i32,
                        az: (cell / self.size) as i32,
                    },
                );
                assert(errors@ =~= self.inland_faults());
            },
            None => {
                assert(errors@ =~= self.inland_faults());
            },
        }
        errors
    }

    proof fn lemma_collar_fits(&self, n: nat)
        requires
            side_ok(self.size as int),
        ensures
            0 <= count_upto(
                |c: int| in_collar(self.size as int, collar_of(self.size as int), c),
                n,
            ) <= n,
        decreases n,
    {
        if n > 0 {
            self.lemma_collar_fits((n - 1) as nat);
        }
    }

    /// An atlas that passes every check has no fault.
    proof fn lemma_no_fault(&self, f: AtlasFault)
        requires
            side_ok(self.size as int),
            self.schema_version == SCHEMA_VERSION,
            self.cells@.len() == self.size * self.size,
            self.land_cells() >= self.area() / 20,
            self.collar_area() > 0 ==> share_of(self.collar_sea(), self.collar_area())
                >= SHARE_ENOUGH,
            self.lakes@.len() > 0,
            self.hydro.coasts != 0,
            self.hydro.lakes != 0,
            forall|i: int, id: i32| !#[trigger] self.short_river(i, id),
            forall|l: int| 0 <= l < self.lakes@.len() ==> #[trigger] self.lake_sound(l),
            forall|c: int|
                is_cell(self.size as int, c) && self.ocean_at(c) ==> #[trigger] self.open_ocean(c),
            forall|key: i32, i: int| !#[trigger] self.dangles(key, i),
            forall|c: int| !#[trigger] self.vanishes(c),
            forall|c: int| !#[trigger] self.climbs(c),
            self.nodes@.len() > 0,
            self.nodes@.len() >= self.min_nodes(),
            forall|mass: i32|
                (#[trigger] self.ids_on(mass)).len() >= 2 ==> linked_count(
                    self.ids_on(mass),
                    self.primary_road_edges@,
                    self.ids_on(mass).len(),
                ) >= self.ids_on(mass).len(),
            self.primary_road_edges@.len() >= roads_needed(self.nodes@, self.nodes@.len()),
            self.road_links@.dom().len() >= self.min_road_cells(),
            self.through_cells().len() >= self.min_through(),
            self.drowned_cells() == 0,
            self.dry_cells() > 0 ==> self.settled_cells() > 0 && share_of(
                self.settled_cells(),
                self.dry_cells(),
            ) <= SHARE_HALF,
        ensures
            !self.has_fault(f),
    {
        match f {
            AtlasFault::LakeWithoutSpill { id } => {
                assert forall|l: int| #[trigger] self.lake_named(l, id) implies self.lake_sound(
                    l,
                ) by {}
            },
            AtlasFault::LakeNotContiguous { id } => {
                assert forall|l: int| #[trigger] self.lake_named(l, id) implies self.lake_sound(
                    l,
                ) by {}
            },
            AtlasFault::LakeTouchesOcean { id } => {
                assert forall|l: int| #[trigger] self.lake_named(l, id) implies self.lake_sound(
                    l,
                ) by {}
            },
            _ => {},
        }
    }
}

} // verus!
