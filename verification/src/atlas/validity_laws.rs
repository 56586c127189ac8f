//! What an atlas without faults is like.

use crate::atlas::continent::ContinentAtlas;
use crate::atlas::drainage::wet;
use crate::atlas::faults::{share_of, AtlasFault};
use crate::atlas::grid::{cell_x, cell_z, is_cell, lemma_cell_coords, lemma_side, side_ok};
use crate::atlas::pack::{cell_elevation, cell_pop};
use crate::atlas::union_find::{linked, linked_count};
use crate::atlas::validate::{contiguous, count_upto};
use crate::rounding::{
    law_ratios_stay_close, law_rounding_stays_close, ratio_to, single, SINGLE,
};
use vstd::prelude::*;

verus! {

proof fn lemma_counts_fit(mark: spec_fn(int) -> bool, n: nat)
    ensures
        0 <= count_upto(mark, n) <= n,
        count_upto(mark, n) == 0 <==> forall|c: int| 0 <= c < n ==> !#[trigger] mark(c),
    decreases n,
{
    if n > 0 {
        lemma_counts_fit(mark, (n - 1) as nat);
        if count_upto(mark, n) == 0 {
            assert forall|c: int| 0 <= c < n implies !#[trigger] mark(c) by {
                if c == n - 1 {
                    assert(!mark(n - 1));
                }
            }
        }
    }
}

proof fn lemma_counts_grow(small: spec_fn(int) -> bool, large: spec_fn(int) -> bool, n: nat)
    requires
        forall|c: int| 0 <= c < n && #[trigger] small(c) ==> large(c),
    ensures
        count_upto(small, n) <= count_upto(large, n),
    decreases n,
{
    if n > 0 {
        lemma_counts_grow(small, large, (n - 1) as nat);
        assert(small(n - 1) ==> large(n - 1));
    }
}

/// A share of counts that fit is told right to a thousandth.
proof fn lemma_share_is_close(part: int, whole: int)
    requires
        0 <= part <= whole,
        0 < whole < 0x100_0000,
    ensures
        ({
            let off = whole * share_of(part, whole) - part * 0x1_0000_0000_0000_0000;
            -0x200_0000_0000 * whole <= off <= 0x200_0000_0000 * whole
        }),
{
    law_rounding_stays_close(part, SINGLE as int);
    law_rounding_stays_close(whole, SINGLE as int);
    let n = part * 0x1_0000_0000_0000_0000;
    law_ratios_stay_close(n, whole, SINGLE as int);
    reveal(share_of);
    assert(single(part) == part && single(whole) == whole);
    let r = share_of(part, whole);
    assert(r == ratio_to(n, whole, SINGLE as int));
    let off = whole * r - n;
    let top = SINGLE as int;
    assert(2 * top * (n - whole * r) == -(2 * top * off)) by (nonlinear_arith)
        requires
            off == whole * r - n,
    ;
    assert(top == 0x100_0000);
    assert(2 * top * off == 0x200_0000 * off);
    assert(top * whole == 0x100_0000 * whole);
}

impl ContinentAtlas {
    /// An atlas without faults holds a twentieth of land at the least, with some seven tenths
    /// of the collar under the sea; it has lakes and a coast.
    pub proof fn law_sound_atlases_have_land_and_sea(&self)
        requires
            side_ok(self.size as int),
            self.size <= 4095,
            self.sound(),
            self.land_cells() <= i32::MAX,
            self.collar_sea() <= i32::MAX,
            self.collar_area() <= i32::MAX,
        ensures
            self.schema_version == 5,
            self.cells@.len() == self.size * self.size,
            20 * self.land_cells() > self.size * self.size - 20,
            1000 * self.collar_sea() >= 699 * self.collar_area(),
            self.lakes@.len() > 0,
            self.hydro.coasts > 0,
            self.hydro.lakes > 0,
    {
        let land = self.land_cells();
        let (sea, rim) = (self.collar_sea(), self.collar_area());
        let whole = |c: int|
            crate::atlas::validate::in_collar(
                self.size as int,
                crate::atlas::landmask::collar_of(self.size as int),
                c,
            );
        let wetted = |c: int|
            crate::atlas::validate::in_collar(
                self.size as int,
                crate::atlas::landmask::collar_of(self.size as int),
                c,
            ) && self.ocean_at(c);
        lemma_side(self.size as int);
        lemma_counts_fit(|c: int| !self.ocean_at(c), self.area());
        lemma_counts_fit(whole, self.area());
        lemma_counts_fit(wetted, self.area());
        lemma_counts_grow(wetted, whole, self.area());
        assert(self.size * self.size < 0x100_0000) by (nonlinear_arith)
            requires
                self.size <= 4095,
        ;
        assert(!self.has_fault(AtlasFault::SchemaMismatch));
        assert(!self.has_fault(AtlasFault::CellsSizeWrong));
        assert(!self.has_fault(AtlasFault::NoLakes));
        assert(!self.has_fault(AtlasFault::NoCoastRings));
        assert(!self.has_fault(AtlasFault::LakeOutlinesMissing));
        assert(!self.has_fault(AtlasFault::TooLittleLand { land: land as usize }));
        assert(!self.has_fault(AtlasFault::CollarWeak { ocean: sea as usize, border: rim as usize }));
        if rim > 0 {
            lemma_share_is_close(sea, rim);
            let s = share_of(sea, rim);
            assert(s * rim >= 12912720631694360576 * rim) by (nonlinear_arith)
                requires
                    s >= 12912720631694360576,
                    rim > 0,
            ;
            assert(s * rim == rim * s) by (nonlinear_arith);
        }
    }

    /// Every lake of an atlas without faults spills somewhere, hangs together and has neither
    /// the sea nor the side of the map beside it; every sea reaches the side of the map.
    pub proof fn law_sound_atlases_keep_lakes_inland(&self, l: int, c: int)
        requires
            side_ok(self.size as int),
            self.sound(),
            0 <= l < self.lakes@.len(),
            is_cell(self.size as int, c),
        ensures
            self.lakes@[l].spill_cell >= 0,
            contiguous(self.size as int, self.lakes@[l].cells@),
            forall|i: int, k: int|
                0 <= i < self.lakes@[l].cells@.len() && 0 <= k < 4 ==> !#[trigger] self.ocean_beside(
                    self.lakes@[l].cells@[i] as int,
                    k,
                ),
            self.ocean_at(c) ==> self.open_ocean(c),
        decreases c,
    {
        let id = self.lakes@[l].id;
        assert(self.lake_named(l, id));
        assert(!self.has_fault(AtlasFault::LakeWithoutSpill { id }));
        assert(!self.has_fault(AtlasFault::LakeNotContiguous { id }));
        assert(!self.has_fault(AtlasFault::LakeTouchesOcean { id }));
        if self.ocean_at(c) && !self.open_ocean(c) {
            assert forall|d: int| 0 <= d < c && self.ocean_at(d) implies #[trigger] self.open_ocean(
                d,
            ) by {
                self.law_sound_atlases_keep_lakes_inland(l, d);
            }
            lemma_cell_coords(self.size as int, c);
            let (ax, az) = (cell_x(self.size as int, c) as i32, cell_z(self.size as int, c) as i32);
            assert(self.first_inland_ocean(c));
            assert(!self.has_fault(AtlasFault::InlandOcean { ax, az }));
        }
    }

    /// No river of an atlas without faults runs uphill over land, and each comes to water.
    pub proof fn law_sound_atlases_have_rivers_that_run_down(&self, c: int)
        requires
            side_ok(self.size as int),
            self.sound(),
            is_cell(self.size as int, c),
            self.river_links@.contains_key(c as i32),
            self.river_receiver@.len() == self.cells@.len(),
            self.river_receiver@[c] < self.size * self.size,
        ensures
            self.river_ends(c, self.area()),
            self.river_receiver@[c] >= 0 && !wet(self.cells@, c) && !wet(
                self.cells@,
                self.river_receiver@[c] as int,
            ) ==> cell_elevation(self.cells@[self.river_receiver@[c] as int]) <= cell_elevation(
                self.cells@[c],
            ),
    {
        let n = self.size as int;
        lemma_cell_coords(n, c);
        let (ax, az) = (cell_x(n, c) as i32, cell_z(n, c) as i32);
        assert(!self.has_fault(AtlasFault::RiverVanishes { ax, az }));
        let down = self.river_receiver@[c] as int;
        if down >= 0 {
            lemma_cell_coords(n, down);
            let (down_ax, down_az) = (cell_x(n, down) as i32, cell_z(n, down) as i32);
            crate::atlas::pack::lemma_field_ranges(self.cells@[c]);
            crate::atlas::pack::lemma_field_ranges(self.cells@[down]);
            assert(!self.has_fault(
                AtlasFault::RiverClimbs {
                    ax,
                    az,
                    from: cell_elevation(self.cells@[c]),
                    down_ax,
                    down_az,
                    to: cell_elevation(self.cells@[down]),
                },
            ));
        }
    }

    /// An atlas without faults has eight nodes at the least and one to twenty cells of its
    /// side; it has twenty-four road cells and four to each node. Half as many of them, and
    /// eight at the least, are run through.
    pub proof fn law_sound_atlases_have_roads(&self)
        requires
            self.sound(),
            self.road_links@.dom().len() <= i32::MAX,
            self.through_cells().len() <= i32::MAX,
            4 * self.nodes@.len() <= i32::MAX,
        ensures
            self.nodes@.len() >= 8,
            20 * self.nodes@.len() > self.size - 20,
            self.road_links@.dom().len() >= 24,
            self.road_links@.dom().len() >= 4 * self.nodes@.len(),
            self.through_cells().len() >= 12,
            self.through_cells().len() >= 2 * self.nodes@.len(),
    {
        let n = self.nodes@.len();
        assert(!self.has_fault(AtlasFault::NoNodes));
        assert(!self.has_fault(
            AtlasFault::TooFewNodes { nodes: n as usize, min: self.min_nodes() as usize },
        ));
        assert(!self.has_fault(
            AtlasFault::RoadCellsStarved {
                cells: self.road_links@.dom().len() as usize,
                min: self.min_road_cells() as usize,
            },
        ));
        assert(!self.has_fault(
            AtlasFault::ThroughLinksStarved { cells: self.through_cells().len() as usize },
        ));
    }

    /// People of an atlas without faults live on land, some of them, and on half of it at the
    /// most, to a thousandth.
    pub proof fn law_sound_atlases_are_settled_sparsely(&self)
        requires
            side_ok(self.size as int),
            self.size <= 4095,
            self.sound(),
        ensures
            forall|c: int|
                is_cell(self.size as int, c) && #[trigger] wet(self.cells@, c) ==> cell_pop(
                    self.cells@[c],
                ) <= 0,
            self.dry_cells() > 0 ==> self.settled_cells() > 0,
            1000 * self.settled_cells() <= 501 * self.dry_cells(),
    {
        let drowned = |c: int| wet(self.cells@, c) && cell_pop(self.cells@[c]) > 0;
        let settled = |c: int| !wet(self.cells@, c) && cell_pop(self.cells@[c]) > 0;
        let dry = |c: int| !wet(self.cells@, c);
        lemma_side(self.size as int);
        assert(self.size * self.size < 0x100_0000) by (nonlinear_arith)
            requires
                self.size <= 4095,
        ;
        lemma_counts_fit(drowned, self.area());
        lemma_counts_fit(settled, self.area());
        lemma_counts_fit(dry, self.area());
        lemma_counts_grow(settled, dry, self.area());
        let (part, whole) = (self.settled_cells(), self.dry_cells());
        assert(!self.has_fault(
            AtlasFault::PopulationOnWater { cells: self.drowned_cells() as usize },
        ));
        assert(!self.has_fault(AtlasFault::NoPopulatedLand));
        assert(!self.has_fault(
            AtlasFault::PopulationNotSparse { occupied: part as usize, land: whole as usize },
        ));
        assert forall|c: int|
            is_cell(self.size as int, c) && #[trigger] wet(self.cells@, c) implies cell_pop(
            self.cells@[c],
        ) <= 0 by {
            assert(!drowned(c));
        }
        if whole > 0 {
            lemma_share_is_close(part, whole);
            let s = share_of(part, whole);
            assert(s * whole <= 0x8000_0000_0000_0000 * whole) by (nonlinear_arith)
                requires
                    s <= 0x8000_0000_0000_0000,
                    whole > 0,
            ;
            assert(s * whole == whole * s) by (nonlinear_arith);
        }
    }

    /// The primary roads of an atlas without faults link every node of a landmass to its
    /// first.
    pub proof fn law_sound_atlases_are_connected(&self, mass: i32, i: int)
        requires
            self.sound(),
            0 <= i < self.ids_on(mass).len() <= i32::MAX,
            self.ids_on(mass).len() >= 2,
        ensures
            linked(
                self.ids_on(mass),
                self.primary_road_edges@,
                self.primary_road_edges@.len() as int,
                self.ids_on(mass)[0],
                self.ids_on(mass)[i],
            ),
    {
        let ids = self.ids_on(mass);
        lemma_all_linked(ids, self.primary_road_edges@, ids.len());
        assert(!self.has_fault(
            AtlasFault::RoadsNotConnected {
                landmass: mass,
                connected: linked_count(ids, self.primary_road_edges@, ids.len()) as usize,
                of: ids.len() as usize,
            },
        ));
    }

    /// Few faults of the whole need any count: an atlas has each exactly where its numbers
    /// say so. Too little land is less than a twentieth; a weak collar is less than seven
    /// tenths sea, to a thousandth; too many people live on more than half the land, to a
    /// thousandth.
    pub proof fn law_faults_have_their_cause(&self, f: AtlasFault)
        requires
            side_ok(self.size as int),
            self.size <= 4095,
            self.has_fault(f),
        ensures
            f is TooLittleLand ==> 20 * self.land_cells() < self.size * self.size,
            f is CollarWeak ==> 1000 * self.collar_sea() < 701 * self.collar_area(),
            f is PopulationNotSparse ==> 1000 * self.settled_cells() > 499 * self.dry_cells(),
            f is PopulationOnWater ==> exists|c: int|
                is_cell(self.size as int, c) && #[trigger] wet(self.cells@, c) && cell_pop(
                    self.cells@[c],
                ) > 0,
            f is TooFewNodes ==> self.nodes@.len() < 8 || 20 * self.nodes@.len() <= self.size,
            f is RoadCellsStarved ==> self.road_links@.dom().len() < 24
                || self.road_links@.dom().len() < 4 * self.nodes@.len(),
            f is ThroughLinksStarved ==> self.through_cells().len() < 12
                || self.through_cells().len() < 2 * self.nodes@.len(),
    {
        lemma_side(self.size as int);
        assert(self.size * self.size < 0x100_0000) by (nonlinear_arith)
            requires
                self.size <= 4095,
        ;
        match f {
            AtlasFault::CollarWeak { ocean, border } => {
                let whole = |c: int|
                    crate::atlas::validate::in_collar(
                        self.size as int,
                        crate::atlas::landmask::collar_of(self.size as int),
                        c,
                    );
                let wetted = |c: int|
                    crate::atlas::validate::in_collar(
                        self.size as int,
                        crate::atlas::landmask::collar_of(self.size as int),
                        c,
                    ) && self.ocean_at(c);
                lemma_counts_fit(whole, self.area());
                lemma_counts_fit(wetted, self.area());
                lemma_counts_grow(wetted, whole, self.area());
                lemma_share_is_close(ocean as int, border as int);
                let s = share_of(ocean as int, border as int);
                assert(s * border <= 12912720631694360576 * border) by (nonlinear_arith)
                    requires
                        s <= 12912720631694360576,
                        border > 0,
                ;
                assert(s * border == border * s) by (nonlinear_arith);
            },
            AtlasFault::PopulationNotSparse { occupied, land } => {
                let settled = |c: int| !wet(self.cells@, c) && cell_pop(self.cells@[c]) > 0;
                let dry = |c: int| !wet(self.cells@, c);
                lemma_counts_fit(settled, self.area());
                lemma_counts_fit(dry, self.area());
                lemma_counts_grow(settled, dry, self.area());
                lemma_share_is_close(occupied as int, land as int);
                let s = share_of(occupied as int, land as int);
                assert(s * land >= 0x8000_0000_0000_0000 * land) by (nonlinear_arith)
                    requires
                        s >= 0x8000_0000_0000_0000,
                        land > 0,
                ;
                assert(s * land == land * s) by (nonlinear_arith);
            },
            AtlasFault::PopulationOnWater { cells } => {
                let drowned = |c: int| wet(self.cells@, c) && cell_pop(self.cells@[c]) > 0;
                lemma_counts_fit(drowned, self.area());
                let c = choose|c: int| 0 <= c < self.area() && #[trigger] drowned(c);
                assert(drowned(c));
                assert(wet(self.cells@, c));
            },
            _ => {},
        }
    }
}

proof fn lemma_all_linked(ids: Seq<i32>, edges: Seq<(i32, i32)>, m: nat)
    ensures
        0 <= linked_count(ids, edges, m) <= m,
        linked_count(ids, edges, m) == m ==> forall|i: int|
            0 <= i < m ==> linked(ids, edges, edges.len() as int, ids[0], #[trigger] ids[i]),
    decreases m,
{
    if m > 0 {
        lemma_all_linked(ids, edges, (m - 1) as nat);
    }
}

} // verus!
