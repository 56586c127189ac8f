//! The list of faults that validation of an atlas tells, part by part and in order.

use crate::atlas::continent::{ContinentAtlas, SCHEMA_VERSION};
use crate::atlas::faults::{share_of, AtlasFault, SHARE_ENOUGH, SHARE_HALF};
use crate::atlas::grid::{
    cell_number, cell_x, cell_z, lemma_coords_of_number, lemma_side, side_ok,
};
use crate::atlas::pack::cell_elevation;
use crate::atlas::validate::{contiguous, mass_ids, roads_needed};
use crate::atlas::union_find::linked_count;
use vstd::prelude::*;

verus! {

/// A fault, where it is one.
pub open spec fn one_if(there: bool, f: AtlasFault) -> Seq<AtlasFault> {
    if there {
        seq![f]
    } else {
        Seq::empty()
    }
}

/// How many river faults of a sort are told before the telling stops.
pub const TOLD: usize = 21;

/// The first 21 of a list.
pub open spec fn first_told(s: Seq<AtlasFault>) -> Seq<AtlasFault> {
    if s.len() > TOLD {
        s.take(TOLD as int)
    } else {
        s
    }
}

/// Each key of a set once, in any order.
pub open spec fn walks(keys: Seq<i32>, all: Set<i32>) -> bool {
    keys.no_duplicates() && keys.to_set() == all
}

impl ContinentAtlas {
    /// What is wrong with the atlas as a whole.
    pub open spec fn whole_faults(&self) -> Seq<AtlasFault> {
        one_if(self.schema_version != SCHEMA_VERSION, AtlasFault::SchemaMismatch) + one_if(
            self.land_cells() < self.area() / 20,
            AtlasFault::TooLittleLand { land: self.land_cells() as usize },
        ) + one_if(
            self.collar_area() > 0 && share_of(self.collar_sea(), self.collar_area())
                < SHARE_ENOUGH,
            AtlasFault::CollarWeak {
                ocean: self.collar_sea() as usize,
                border: self.collar_area() as usize,
            },
        ) + one_if(self.lakes@.len() == 0, AtlasFault::NoLakes) + one_if(
            self.hydro.coasts == 0,
            AtlasFault::NoCoastRings,
        ) + one_if(
            self.hydro.lakes == 0 && self.lakes@.len() > 0,
            AtlasFault::LakeOutlinesMissing,
        )
    }

    /// The first `n` drawn rivers that are too short.
    pub open spec fn line_faults(&self, n: nat) -> Seq<AtlasFault>
        decreases n,
    {
        if n == 0 {
            Seq::empty()
        } else {
            self.line_faults((n - 1) as nat) + one_if(
                self.hydro.rivers@[n - 1].1 < 2,
                AtlasFault::RiverTooShort { id: self.hydro.rivers@[n - 1].0 },
            )
        }
    }

    /// What is wrong with lake `l`.
    pub open spec fn faults_of_lake(&self, l: int) -> Seq<AtlasFault> {
        let lake = self.lakes@[l];
        one_if(lake.spill_cell < 0, AtlasFault::LakeWithoutSpill { id: lake.id }) + one_if(
            !contiguous(self.size as int, lake.cells@),
            AtlasFault::LakeNotContiguous { id: lake.id },
        ) + one_if(self.at_sea(lake.cells@), AtlasFault::LakeTouchesOcean { id: lake.id })
    }

    /// What is wrong with the first `n` lakes.
    pub open spec fn lake_faults(&self, n: nat) -> Seq<AtlasFault>
        decreases n,
    {
        if n == 0 {
            Seq::empty()
        } else {
            self.lake_faults((n - 1) as nat) + self.faults_of_lake(n - 1)
        }
    }

    /// The first sea cell that is cut off, if there is one.
    pub open spec fn inland_faults(&self) -> Seq<AtlasFault> {
        if exists|c: int| #[trigger] self.first_inland_ocean(c) {
            let c = choose|c: int| #[trigger] self.first_inland_ocean(c);
            seq![
                AtlasFault::InlandOcean {
                    ax: cell_x(self.size as int, c) as i32,
                    az: cell_z(self.size as int, c) as i32,
                },
            ]
        } else {
            Seq::empty()
        }
    }

    /// The first `n` ports of an edge that no link ends on.
    pub open spec fn port_faults(&self, key: i32, n: nat) -> Seq<AtlasFault>
        decreases n,
    {
        if n == 0 {
            Seq::empty()
        } else {
            let id = self.river_ports@[key]@[n - 1].id;
            self.port_faults(key, (n - 1) as nat) + one_if(
                !self.port_used(key, id),
                AtlasFault::DanglingPort { key, id },
            )
        }
    }

    /// The ports of the first `n` edges that no link ends on.
    pub open spec fn ports_faults(&self, keys: Seq<i32>, n: nat) -> Seq<AtlasFault>
        decreases n,
    {
        if n == 0 {
            Seq::empty()
        } else {
            self.ports_faults(keys, (n - 1) as nat) + self.port_faults(
                keys[n - 1],
                self.river_ports@[keys[n - 1]]@.len(),
            )
        }
    }

    /// The first `n` river cells whose river comes to no water.
    pub open spec fn vanish_faults(&self, cells: Seq<i32>, n: nat) -> Seq<AtlasFault>
        decreases n,
    {
        if n == 0 {
            Seq::empty()
        } else {
            self.vanish_faults(cells, (n - 1) as nat) + one_if(
                self.vanishes(cells[n - 1] as int),
                AtlasFault::RiverVanishes {
                    ax: cell_x(self.size as int, cells[n - 1] as int) as i32,
                    az: cell_z(self.size as int, cells[n - 1] as int) as i32,
                },
            )
        }
    }

    /// What is wrong with how rivers end: the loose ports of the edges, then the rivers
    /// that vanish, the edges and cells in the order given.
    pub open spec fn end_faults(&self, keys: Seq<i32>, cells: Seq<i32>) -> Seq<AtlasFault> {
        self.ports_faults(keys, keys.len()) + if self.river_receiver@.len() == self.cells@.len() {
            self.vanish_faults(cells, cells.len())
        } else {
            Seq::empty()
        }
    }

    /// The river cells among the first `n` cells whose river climbs.
    pub open spec fn climb_faults(&self, n: nat) -> Seq<AtlasFault>
        decreases n,
    {
        if n == 0 {
            Seq::empty()
        } else {
            self.climb_faults((n - 1) as nat) + one_if(self.climbs(n - 1), self.climb_told(n - 1))
        }
    }

    /// How a river that climbs in cell `c` is told.
    pub open spec fn climb_told(&self, c: int) -> AtlasFault {
        let d = self.river_receiver@[c] as int;
        AtlasFault::RiverClimbs {
            ax: cell_x(self.size as int, c) as i32,
            az: cell_z(self.size as int, c) as i32,
            from: cell_elevation(self.cells@[c]) as i32,
            down_ax: cell_x(self.size as int, d) as i32,
            down_az: cell_z(self.size as int, d) as i32,
            to: cell_elevation(self.cells@[d]) as i32,
        }
    }

    /// Whether the primary roads leave a landmass apart.
    pub open spec fn mass_apart(&self, mass: i32) -> bool {
        let ids = self.ids_on(mass);
        ids.len() >= 2 && linked_count(ids, self.primary_road_edges@, ids.len()) < ids.len()
    }

    /// The landmasses of the first `n` nodes that the primary roads leave apart, in the
    /// order of their first nodes.
    pub open spec fn mass_faults(&self, n: nat) -> Seq<AtlasFault>
        decreases n,
    {
        if n == 0 {
            Seq::empty()
        } else {
            let mass = self.nodes@[n - 1].landmass;
            let ids = self.ids_on(mass);
            self.mass_faults((n - 1) as nat) + one_if(
                mass_ids(self.nodes@, mass, (n - 1) as nat).len() == 0 && self.mass_apart(mass),
                AtlasFault::RoadsNotConnected {
                    landmass: mass,
                    connected: linked_count(ids, self.primary_road_edges@, ids.len()) as usize,
                    of: ids.len() as usize,
                },
            )
        }
    }

    /// What is wrong with the roads.
    pub open spec fn road_faults(&self) -> Seq<AtlasFault> {
        if self.nodes@.len() == 0 {
            seq![AtlasFault::NoNodes]
        } else {
            let need = roads_needed(self.nodes@, self.nodes@.len());
            self.mass_faults(self.nodes@.len()) + one_if(
                self.nodes@.len() < self.min_nodes(),
                AtlasFault::TooFewNodes {
                    nodes: self.nodes@.len() as usize,
                    min: self.min_nodes() as usize,
                },
            ) + one_if(
                self.primary_road_edges@.len() < need,
                AtlasFault::PrimaryEdgesStarved {
                    edges: self.primary_road_edges@.len() as usize,
                    need: need as usize,
                },
            ) + one_if(
                self.road_links@.dom().len() < self.min_road_cells(),
                AtlasFault::RoadCellsStarved {
                    cells: self.road_links@.dom().len() as usize,
                    min: self.min_road_cells() as usize,
                },
            ) + one_if(
                self.through_cells().len() < self.min_through(),
                AtlasFault::ThroughLinksStarved { cells: self.through_cells().len() as usize },
            )
        }
    }

    /// What is wrong with where people live.
    pub open spec fn people_faults(&self) -> Seq<AtlasFault> {
        one_if(
            self.drowned_cells() > 0,
            AtlasFault::PopulationOnWater { cells: self.drowned_cells() as usize },
        ) + one_if(
            self.dry_cells() > 0 && self.settled_cells() == 0,
            AtlasFault::NoPopulatedLand,
        ) + one_if(
            self.dry_cells() > 0 && share_of(self.settled_cells(), self.dry_cells()) > SHARE_HALF,
            AtlasFault::PopulationNotSparse {
                occupied: self.settled_cells() as usize,
                land: self.dry_cells() as usize,
            },
        )
    }

    /// Everything that is told of the atlas, the edges with river ports and the river cells
    /// in the order given. An atlas with too many or too few cells is not looked at
    /// further.
    pub open spec fn faults_told(&self, keys: Seq<i32>, cells: Seq<i32>) -> Seq<AtlasFault> {
        if self.cells@.len() != self.size * self.size {
            one_if(self.schema_version != SCHEMA_VERSION, AtlasFault::SchemaMismatch).push(
                AtlasFault::CellsSizeWrong,
            )
        } else {
            self.whole_faults() + self.line_faults(self.hydro.rivers@.len()) + self.lake_faults(
                self.lakes@.len(),
            ) + self.inland_faults() + first_told(self.end_faults(keys, cells)) + first_told(
                self.climb_faults(self.area()),
            ) + self.road_faults() + self.people_faults()
        }
    }
}

/// Faults of which only the first 21 are told.
pub open spec fn told_in_part(f: AtlasFault) -> bool {
    f is DanglingPort || f is RiverVanishes || f is RiverClimbs
}

/// Taking more of what is told only adds to the end.
pub(crate) proof fn lemma_told(a: Seq<AtlasFault>, b: Seq<AtlasFault>)
    requires
        a.len() == TOLD,
    ensures
        first_told(a + b) == a,
{
    assert(first_told(a + b) =~= a);
}

pub(crate) proof fn lemma_in_sum(a: Seq<AtlasFault>, b: Seq<AtlasFault>, f: AtlasFault)
    ensures
        (a + b).contains(f) <==> a.contains(f) || b.contains(f),
{
    let s = a + b;
    if a.contains(f) {
        let i = choose|i: int| 0 <= i < a.len() && a[i] == f;
        assert(s[i] == f);
    }
    if b.contains(f) {
        let i = choose|i: int| 0 <= i < b.len() && b[i] == f;
        assert(s[a.len() + i] == f);
    }
    if s.contains(f) {
        let i = choose|i: int| 0 <= i < s.len() && s[i] == f;
        if i < a.len() {
            assert(a[i] == f);
        } else {
            assert(b[i - a.len()] == f);
        }
    }
}

proof fn lemma_in_one(there: bool, f: AtlasFault, g: AtlasFault)
    ensures
        one_if(there, f).contains(g) <==> there && f == g,
{
    if there {
        assert(seq![f][0] == f);
    }
}

impl ContinentAtlas {
    proof fn lemma_lines_in(&self, i: int, n: nat)
        requires
            0 <= i < n,
            self.hydro.rivers@[i].1 < 2,
        ensures
            self.line_faults(n).contains(AtlasFault::RiverTooShort { id: self.hydro.rivers@[i].0 }),
        decreases n,
    {
        let f = AtlasFault::RiverTooShort { id: self.hydro.rivers@[i].0 };
        let last = one_if(
            self.hydro.rivers@[n - 1].1 < 2,
            AtlasFault::RiverTooShort { id: self.hydro.rivers@[n - 1].0 },
        );
        if i < n - 1 {
            self.lemma_lines_in(i, (n - 1) as nat);
        } else {
            lemma_in_one(true, f, f);
        }
        lemma_in_sum(self.line_faults((n - 1) as nat), last, f);
    }

    proof fn lemma_lakes_in(&self, l: int, n: nat, f: AtlasFault)
        requires
            0 <= l < n,
            self.faults_of_lake(l).contains(f),
        ensures
            self.lake_faults(n).contains(f),
        decreases n,
    {
        if l < n - 1 {
            self.lemma_lakes_in(l, (n - 1) as nat, f);
        }
        lemma_in_sum(self.lake_faults((n - 1) as nat), self.faults_of_lake(n - 1), f);
    }

    proof fn lemma_lake_in(&self, l: int)
        ensures
            self.lakes@[l].spill_cell < 0 ==> self.faults_of_lake(l).contains(
                AtlasFault::LakeWithoutSpill { id: self.lakes@[l].id },
            ),
            !contiguous(self.size as int, self.lakes@[l].cells@) ==> self.faults_of_lake(
                l,
            ).contains(AtlasFault::LakeNotContiguous { id: self.lakes@[l].id }),
            self.at_sea(self.lakes@[l].cells@) ==> self.faults_of_lake(l).contains(
                AtlasFault::LakeTouchesOcean { id: self.lakes@[l].id },
            ),
    {
        let lake = self.lakes@[l];
        let spill = AtlasFault::LakeWithoutSpill { id: lake.id };
        let apart = AtlasFault::LakeNotContiguous { id: lake.id };
        let sea = AtlasFault::LakeTouchesOcean { id: lake.id };
        let a = one_if(lake.spill_cell < 0, spill);
        let b = one_if(!contiguous(self.size as int, lake.cells@), apart);
        let c = one_if(self.at_sea(lake.cells@), sea);
        lemma_in_one(lake.spill_cell < 0, spill, spill);
        lemma_in_one(!contiguous(self.size as int, lake.cells@), apart, apart);
        lemma_in_one(self.at_sea(lake.cells@), sea, sea);
        lemma_in_sum(a, b, spill);
        lemma_in_sum(a + b, c, spill);
        lemma_in_sum(a, b, apart);
        lemma_in_sum(a + b, c, apart);
        lemma_in_sum(a + b, c, sea);
    }

    proof fn lemma_port_in(&self, key: i32, i: int, n: nat)
        requires
            0 <= i < n,
            !self.port_used(key, self.river_ports@[key]@[i].id),
        ensures
            self.port_faults(key, n).contains(
                AtlasFault::DanglingPort { key, id: self.river_ports@[key]@[i].id },
            ),
        decreases n,
    {
        let f = AtlasFault::DanglingPort { key, id: self.river_ports@[key]@[i].id };
        let id = self.river_ports@[key]@[n - 1].id;
        if i < n - 1 {
            self.lemma_port_in(key, i, (n - 1) as nat);
        } else {
            lemma_in_one(true, f, f);
        }
        lemma_in_sum(
            self.port_faults(key, (n - 1) as nat),
            one_if(!self.port_used(key, id), AtlasFault::DanglingPort { key, id }),
            f,
        );
    }

    proof fn lemma_ports_in(&self, keys: Seq<i32>, k: int, n: nat, f: AtlasFault)
        requires
            0 <= k < n,
            self.port_faults(keys[k], self.river_ports@[keys[k]]@.len()).contains(f),
        ensures
            self.ports_faults(keys, n).contains(f),
        decreases n,
    {
        if k < n - 1 {
            self.lemma_ports_in(keys, k, (n - 1) as nat, f);
        }
        lemma_in_sum(
            self.ports_faults(keys, (n - 1) as nat),
            self.port_faults(keys[n - 1], self.river_ports@[keys[n - 1]]@.len()),
            f,
        );
    }

    proof fn lemma_vanish_in(&self, cells: Seq<i32>, k: int, n: nat)
        requires
            0 <= k < n,
            self.vanishes(cells[k] as int),
        ensures
            self.vanish_faults(cells, n).contains(
                AtlasFault::RiverVanishes {
                    ax: cell_x(self.size as int, cells[k] as int) as i32,
                    az: cell_z(self.size as int, cells[k] as int) as i32,
                },
            ),
        decreases n,
    {
        let f = AtlasFault::RiverVanishes {
            ax: cell_x(self.size as int, cells[k] as int) as i32,
            az: cell_z(self.size as int, cells[k] as int) as i32,
        };
        if k < n - 1 {
            self.lemma_vanish_in(cells, k, (n - 1) as nat);
        } else {
            lemma_in_one(true, f, f);
        }
        lemma_in_sum(
            self.vanish_faults(cells, (n - 1) as nat),
            one_if(
                self.vanishes(cells[n - 1] as int),
                AtlasFault::RiverVanishes {
                    ax: cell_x(self.size as int, cells[n - 1] as int) as i32,
                    az: cell_z(self.size as int, cells[n - 1] as int) as i32,
                },
            ),
            f,
        );
    }

    proof fn lemma_climb_in(&self, c: int, n: nat)
        requires
            0 <= c < n,
            self.climbs(c),
        ensures
            self.climb_faults(n).contains(self.climb_told(c)),
        decreases n,
    {
        if c < n - 1 {
            self.lemma_climb_in(c, (n - 1) as nat);
        } else {
            lemma_in_one(true, self.climb_told(c), self.climb_told(c));
        }
        lemma_in_sum(
            self.climb_faults((n - 1) as nat),
            one_if(self.climbs(n - 1), self.climb_told(n - 1)),
            self.climb_told(c),
        );
    }

    proof fn lemma_mass_in(&self, mass: i32, n: nat)
        requires
            mass_ids(self.nodes@, mass, n).len() > 0,
            self.mass_apart(mass),
        ensures
            self.mass_faults(n).contains(
                AtlasFault::RoadsNotConnected {
                    landmass: mass,
                    connected: linked_count(
                        self.ids_on(mass),
                        self.primary_road_edges@,
                        self.ids_on(mass).len(),
                    ) as usize,
                    of: self.ids_on(mass).len() as usize,
                },
            ),
        decreases n,
    {
        let ids = self.ids_on(mass);
        let f = AtlasFault::RoadsNotConnected {
            landmass: mass,
            connected: linked_count(ids, self.primary_road_edges@, ids.len()) as usize,
            of: ids.len() as usize,
        };
        let last = self.nodes@[n - 1].landmass;
        let theirs = self.ids_on(last);
        if mass_ids(self.nodes@, mass, (n - 1) as nat).len() > 0 {
            self.lemma_mass_in(mass, (n - 1) as nat);
        } else {
            lemma_in_one(true, f, f);
        }
        lemma_in_sum(
            self.mass_faults((n - 1) as nat),
            one_if(
                mass_ids(self.nodes@, last, (n - 1) as nat).len() == 0 && self.mass_apart(last),
                AtlasFault::RoadsNotConnected {
                    landmass: last,
                    connected: linked_count(
                        theirs,
                        self.primary_road_edges@,
                        theirs.len(),
                    ) as usize,
                    of: theirs.len() as usize,
                },
            ),
            f,
        );
    }

    proof fn lemma_whole_in(&self, f: AtlasFault)
        requires
            self.has_fault(f),
            f is SchemaMismatch || f is TooLittleLand || f is CollarWeak || f is NoLakes
                || f is NoCoastRings || f is LakeOutlinesMissing,
        ensures
            self.whole_faults().contains(f),
    {
        let a = one_if(self.schema_version != SCHEMA_VERSION, AtlasFault::SchemaMismatch);
        let b = one_if(
            self.land_cells() < self.area() / 20,
            AtlasFault::TooLittleLand { land: self.land_cells() as usize },
        );
        let c = one_if(
            self.collar_area() > 0 && share_of(self.collar_sea(), self.collar_area())
                < SHARE_ENOUGH,
            AtlasFault::CollarWeak {
                ocean: self.collar_sea() as usize,
                border: self.collar_area() as usize,
            },
        );
        let d = one_if(self.lakes@.len() == 0, AtlasFault::NoLakes);
        let e = one_if(self.hydro.coasts == 0, AtlasFault::NoCoastRings);
        let g = one_if(
            self.hydro.lakes == 0 && self.lakes@.len() > 0,
            AtlasFault::LakeOutlinesMissing,
        );
        lemma_in_one(true, f, f);
        assert(a == one_if(true, f) || b == one_if(true, f) || c == one_if(true, f) || d == one_if(
            true,
            f,
        ) || e == one_if(true, f) || g == one_if(true, f));
        lemma_in_sum(a, b, f);
        lemma_in_sum(a + b, c, f);
        lemma_in_sum(a + b + c, d, f);
        lemma_in_sum(a + b + c + d, e, f);
        lemma_in_sum(a + b + c + d + e, g, f);
    }

    proof fn lemma_roads_in(&self, f: AtlasFault)
        requires
            self.has_fault(f),
            f is NoNodes || f is RoadsNotConnected || f is TooFewNodes || f is PrimaryEdgesStarved
                || f is RoadCellsStarved || f is ThroughLinksStarved,
        ensures
            self.road_faults().contains(f),
    {
        lemma_in_one(true, f, f);
        if self.nodes@.len() == 0 {
            assert(self.road_faults() =~= one_if(true, AtlasFault::NoNodes));
            assert(roads_needed(self.nodes@, 0) == 0);
        } else {
            let need = roads_needed(self.nodes@, self.nodes@.len());
            let a = self.mass_faults(self.nodes@.len());
            let b = one_if(
                self.nodes@.len() < self.min_nodes(),
                AtlasFault::TooFewNodes {
                    nodes: self.nodes@.len() as usize,
                    min: self.min_nodes() as usize,
                },
            );
            let c = one_if(
                self.primary_road_edges@.len() < need,
                AtlasFault::PrimaryEdgesStarved {
                    edges: self.primary_road_edges@.len() as usize,
                    need: need as usize,
                },
            );
            let d = one_if(
                self.road_links@.dom().len() < self.min_road_cells(),
                AtlasFault::RoadCellsStarved {
                    cells: self.road_links@.dom().len() as usize,
                    min: self.min_road_cells() as usize,
                },
            );
            let e = one_if(
                self.through_cells().len() < self.min_through(),
                AtlasFault::ThroughLinksStarved { cells: self.through_cells().len() as usize },
            );
            match f {
                AtlasFault::RoadsNotConnected { landmass, connected, of } => {
                    self.lemma_mass_in(landmass, self.nodes@.len());
                },
                _ => {
                    assert(b == one_if(true, f) || c == one_if(true, f) || d == one_if(true, f)
                        || e == one_if(true, f));
                },
            }
            lemma_in_sum(a, b, f);
            lemma_in_sum(a + b, c, f);
            lemma_in_sum(a + b + c, d, f);
            lemma_in_sum(a + b + c + d, e, f);
        }
    }

    proof fn lemma_people_in(&self, f: AtlasFault)
        requires
            self.has_fault(f),
            f is PopulationOnWater || f is NoPopulatedLand || f is PopulationNotSparse,
        ensures
            self.people_faults().contains(f),
    {
        let a = one_if(
            self.drowned_cells() > 0,
            AtlasFault::PopulationOnWater { cells: self.drowned_cells() as usize },
        );
        let b = one_if(
            self.dry_cells() > 0 && self.settled_cells() == 0,
            AtlasFault::NoPopulatedLand,
        );
        let c = one_if(
            self.dry_cells() > 0 && share_of(self.settled_cells(), self.dry_cells()) > SHARE_HALF,
            AtlasFault::PopulationNotSparse {
                occupied: self.settled_cells() as usize,
                land: self.dry_cells() as usize,
            },
        );
        lemma_in_one(true, f, f);
        assert(a == one_if(true, f) || b == one_if(true, f) || c == one_if(true, f));
        lemma_in_sum(a, b, f);
        lemma_in_sum(a + b, c, f);
    }

    proof fn lemma_inland_in(&self, f: AtlasFault)
        requires
            self.has_fault(f),
            f is InlandOcean,
        ensures
            self.inland_faults().contains(f),
    {
        let n = self.size as int;
        match f {
            AtlasFault::InlandOcean { ax, az } => {
                lemma_coords_of_number(n, ax as int, az as int);
                let c = cell_number(n, ax as int, az as int);
                let d = choose|d: int| #[trigger] self.first_inland_ocean(d);
                assert(self.first_inland_ocean(c));
                assert(c == d) by {
                    if c < d {
                        assert(self.open_ocean(c));
                    }
                    if d < c {
                        assert(self.open_ocean(d));
                    }
                }
                assert(self.inland_faults()[0] == f);
            },
            _ => {},
        }
    }

    /// Every port that no river link ends on and every river that vanishes is among the
    /// faults of how rivers end, and every river that climbs among those of rivers that
    /// climb. Of each list the first 21 are told.
    pub proof fn law_river_faults_are_listed(
        &self,
        keys: Seq<i32>,
        cells: Seq<i32>,
        f: AtlasFault,
    )
        requires
            side_ok(self.size as int),
            self.cells@.len() == self.size * self.size,
            walks(keys, self.river_ports@.dom()),
            walks(cells, self.river_links@.dom()),
            self.has_fault(f),
            told_in_part(f),
        ensures
            f is RiverClimbs ==> self.climb_faults(self.area()).contains(f),
            f !is RiverClimbs ==> self.end_faults(keys, cells).contains(f),
    {
        let n = self.size as int;
        lemma_side(n);
        match f {
            AtlasFault::DanglingPort { key, id } => {
                let i = choose|i: int| #[trigger]
                    self.dangles(key, i) && self.river_ports@[key]@[i].id == id;
                self.lemma_port_in(key, i, self.river_ports@[key]@.len());
                assert(keys.to_set().contains(key));
                let k = choose|k: int| 0 <= k < keys.len() && keys[k] == key;
                self.lemma_ports_in(keys, k, keys.len(), f);
                lemma_in_sum(
                    self.ports_faults(keys, keys.len()),
                    if self.river_receiver@.len() == self.cells@.len() {
                        self.vanish_faults(cells, cells.len())
                    } else {
                        Seq::empty()
                    },
                    f,
                );
            },
            AtlasFault::RiverVanishes { ax, az } => {
                lemma_coords_of_number(n, ax as int, az as int);
                let c = cell_number(n, ax as int, az as int);
                assert(cells.to_set().contains(c as i32));
                let k = choose|k: int| 0 <= k < cells.len() && cells[k] == c as i32;
                assert(cells[k] as int == c);
                self.lemma_vanish_in(cells, k, cells.len());
                lemma_in_sum(
                    self.ports_faults(keys, keys.len()),
                    self.vanish_faults(cells, cells.len()),
                    f,
                );
            },
            AtlasFault::RiverClimbs { ax, az, from, down_ax, down_az, to } => {
                lemma_coords_of_number(n, ax as int, az as int);
                lemma_coords_of_number(n, down_ax as int, down_az as int);
                let c = cell_number(n, ax as int, az as int);
                self.lemma_climb_in(c, self.area());
                assert(self.climb_told(c) == f);
            },
            _ => {},
        }
    }

    /// Every fault of an atlas with the right number of cells is told, but for river faults
    /// beyond the first 21 of their list.
    pub proof fn law_every_fault_is_told(&self, keys: Seq<i32>, cells: Seq<i32>, f: AtlasFault)
        requires
            side_ok(self.size as int),
            self.cells@.len() == self.size * self.size,
            walks(keys, self.river_ports@.dom()),
            walks(cells, self.river_links@.dom()),
            self.has_fault(f),
            f is RiverClimbs ==> self.climb_faults(self.area()).len() <= TOLD,
            f is DanglingPort || f is RiverVanishes ==> self.end_faults(keys, cells).len() <= TOLD,
        ensures
            self.faults_told(keys, cells).contains(f),
    {
        let a = self.whole_faults();
        let b = self.line_faults(self.hydro.rivers@.len());
        let c = self.lake_faults(self.lakes@.len());
        let d = self.inland_faults();
        let e = first_told(self.end_faults(keys, cells));
        let g = first_told(self.climb_faults(self.area()));
        let h = self.road_faults();
        let i = self.people_faults();
        match f {
            AtlasFault::RiverTooShort { id } => {
                let r = choose|r: int| #[trigger] self.short_river(r, id);
                self.lemma_lines_in(r, self.hydro.rivers@.len());
            },
            AtlasFault::LakeWithoutSpill { id } => {
                let l = choose|l: int| #[trigger]
                    self.lake_named(l, id) && self.lakes@[l].spill_cell < 0;
                self.lemma_lake_in(l);
                self.lemma_lakes_in(l, self.lakes@.len(), f);
            },
            AtlasFault::LakeNotContiguous { id } => {
                let l = choose|l: int| #[trigger]
                    self.lake_named(l, id) && !contiguous(
                        self.size as int,
                        self.lakes@[l].cells@,
                    );
                self.lemma_lake_in(l);
                self.lemma_lakes_in(l, self.lakes@.len(), f);
            },
            AtlasFault::LakeTouchesOcean { id } => {
                let l = choose|l: int| #[trigger]
                    self.lake_named(l, id) && self.at_sea(self.lakes@[l].cells@);
                self.lemma_lake_in(l);
                self.lemma_lakes_in(l, self.lakes@.len(), f);
            },
            AtlasFault::InlandOcean { .. } => {
                self.lemma_inland_in(f);
            },
            AtlasFault::DanglingPort { .. } => {
                self.law_river_faults_are_listed(keys, cells, f);
            },
            AtlasFault::RiverVanishes { .. } => {
                self.law_river_faults_are_listed(keys, cells, f);
            },
            AtlasFault::RiverClimbs { .. } => {
                self.law_river_faults_are_listed(keys, cells, f);
            },
            AtlasFault::NoNodes => {
                self.lemma_roads_in(f);
            },
            AtlasFault::RoadsNotConnected { .. } => {
                self.lemma_roads_in(f);
            },
            AtlasFault::TooFewNodes { .. } => {
                self.lemma_roads_in(f);
            },
            AtlasFault::PrimaryEdgesStarved { .. } => {
                self.lemma_roads_in(f);
            },
            AtlasFault::RoadCellsStarved { .. } => {
                self.lemma_roads_in(f);
            },
            AtlasFault::ThroughLinksStarved { .. } => {
                self.lemma_roads_in(f);
            },
            AtlasFault::PopulationOnWater { .. } => {
                self.lemma_people_in(f);
            },
            AtlasFault::NoPopulatedLand => {
                self.lemma_people_in(f);
            },
            AtlasFault::PopulationNotSparse { .. } => {
                self.lemma_people_in(f);
            },
            AtlasFault::CellsSizeWrong => {},
            AtlasFault::EastPortsDisagree { .. } => {},
            AtlasFault::SouthPortsDisagree { .. } => {},
            AtlasFault::PortPayloadMismatch { .. } => {},
            _ => {
                self.lemma_whole_in(f);
            },
        }
        lemma_in_sum(a, b, f);
        lemma_in_sum(a + b, c, f);
        lemma_in_sum(a + b + c, d, f);
        lemma_in_sum(a + b + c + d, e, f);
        lemma_in_sum(a + b + c + d + e, g, f);
        lemma_in_sum(a + b + c + d + e + g, h, f);
        lemma_in_sum(a + b + c + d + e + g + h, i, f);
    }
}

} // verus!
