//! The order in which a continent is made once its land, climate and first lakes are known:
//! water, biomes and rivers, people and roads, and the finished atlas.

use crate::atlas::biomes::{biome_number, Biome};
use crate::atlas::cell_map::{list_at, lists};
use crate::atlas::classify::{biome_at, classify_and_pack, under_water};
use crate::atlas::continent::{ContinentAtlas, HydroSummary, SCHEMA_VERSION, SEA_SURFACE_Z};
use crate::atlas::drainage::{drained_cell, water_known, wet};
use crate::atlas::faults::AtlasFault;
use crate::atlas::grid::{
    cell_number, is_cell, is_part, joined, lemma_coords_of_number, lemma_distinct_len, lemma_side,
    side_ok,
};
use crate::atlas::inland::{
    inland_sea_mask, is_coastal, is_hollow_lake, is_open_sea, kept_below, label_landmasses,
    lakes_inland, law_no_inland_sea_left, leaders_below, leads, merge_coastal_lakes_into_ocean,
    merged_cell, merged_lake, promote_inland_seas_to_lakes,
};
use crate::atlas::lakes::{dry_mask, hollow_bed, is_dry, is_sea, sea_mask, LakeScratch};
use crate::atlas::nodes::{
    before_seeding, ground_kept, keep_apart, law_seeded_nodes_keep_apart,
    lemma_repopulated_valid, node_stands, nodes_seeded, seed_nodes, NodeGround,
};
use crate::atlas::pack::{
    cell_biome, cell_biome_id, cell_elevation, cell_humidity, cell_pop, cell_relief, cell_valid,
    law_pack_round_trip, packed_cell,
};
use crate::atlas::population::{drawn_population, mouth_steps, seed_population, with_population};
use crate::atlas::rivers::{
    build_rivers, cell_raised, land_drained, lemma_raised_biome, links_added, rivers_added,
    RiverGraph, RiverView,
};
use crate::atlas::road_network::{
    build_roads, node_placed, road_land, roads_built, town_mask, RoadPlan,
};
use crate::atlas::roads::{crossing_at, find_crossings, RoadGraph, RoadsView};
use crate::atlas::types::{Crossing, GraphNode, Lake, Link, Port};
use crate::atlas::validate::count_upto;
use vstd::prelude::*;

verus! {

/// The land, its elevations and its lakes.
pub ghost struct Waters {
    pub land: Seq<u8>,
    pub elev: Seq<u8>,
    pub scratch: LakeScratch,
}

/// Whether the lakes that meet the sea became part of it and the others were kept.
pub open spec fn coast_merged(size: int, a: Waters, b: Waters) -> bool {
    &&& b.scratch.well_formed(size)
    &&& b.land.len() == size * size
    &&& b.elev.len() == size * size
    &&& lakes_inland(size, b.land, b.scratch.lake_id@, b.scratch.lakes@)
    &&& b.scratch.lakes@.len() == kept_below(
        size,
        a.land,
        a.scratch.lake_id@,
        a.scratch.lakes@,
        a.scratch.lakes@.len(),
    )
    &&& forall|i: int|
        0 <= i < a.scratch.lakes@.len() ==> #[trigger] merged_lake(
            size,
            a.land,
            a.scratch.lake_id@,
            a.scratch.lakes@,
            b.scratch.lakes@,
            i,
        )
    &&& forall|c: int|
        #![trigger b.scratch.lake_id@[c]]
        is_cell(size, c) ==> merged_cell(
            size,
            a.land,
            a.elev,
            a.scratch.lake_id@,
            a.scratch.lakes@,
            a.scratch.lakes@.len() as int,
            c,
            b.land[c],
            b.elev[c],
            b.scratch.lake_id@[c],
        )
}

/// Whether every sea cut off from the edge of the map became a lake and the rest was kept.
pub open spec fn seas_promoted(size: int, a: Waters, b: Waters) -> bool {
    let cut_off = inland_sea_mask(size, a.land, a.scratch.lake_id@);
    let had = a.scratch.lakes@.len();
    let lakes = b.scratch.lakes@;
    &&& b.land == a.land
    &&& b.scratch.well_formed(size)
    &&& had <= lakes.len()
    &&& forall|i: int| 0 <= i < had ==> #[trigger] lakes[i] == a.scratch.lakes@[i]
    &&& forall|j: int|
        #![trigger lakes[j]]
        had <= j < lakes.len() ==> {
            &&& is_part(size, cut_off, lakes[j].cells@[0] as int, lakes[j].cells@)
            &&& is_hollow_lake(size, a.land, a.scratch.lake_id@, a.elev, lakes[j])
        }
    &&& forall|j: int, i: int|
        #![trigger lakes[j].cells@[i]]
        had <= j < lakes.len() && 0 <= i < lakes[j].cells@.len() ==> lakes[j].cells@[0]
            <= lakes[j].cells@[i]
    &&& forall|j: int, l: int|
        #![trigger lakes[j], lakes[l]]
        had <= j < l < lakes.len() ==> lakes[j].cells@[0] < lakes[l].cells@[0]
    &&& forall|c: int|
        is_cell(size, c) ==> {
            if cut_off[c] {
                #[trigger] b.scratch.lake_id@[c] >= had
            } else {
                b.scratch.lake_id@[c] == a.scratch.lake_id@[c]
            }
        }
    &&& b.elev.len() == size * size
    &&& forall|c: int|
        is_cell(size, c) ==> #[trigger] b.elev[c] == (if cut_off[c] {
            hollow_bed(lakes[b.scratch.lake_id@[c] as int].surface_code as int)
        } else {
            a.elev[c] as int
        })
}

/// Whether dry land is numbered by landmass, in the order of the first cells.
pub open spec fn masses_labelled(
    size: int,
    land: Seq<u8>,
    lake_id: Seq<i32>,
    before: Seq<i32>,
    after: Seq<i32>,
) -> bool {
    &&& after.len() == size * size
    &&& forall|c: int|
        #![trigger after[c]]
        is_cell(size, c) && !is_dry(land, lake_id, c) ==> after[c] == before[c]
    &&& forall|a: int, c: int|
        leads(size, dry_mask(size, land, lake_id), a) && #[trigger] joined(
            size,
            dry_mask(size, land, lake_id),
            a,
            c,
        ) ==> after[c] == leaders_below(size, dry_mask(size, land, lake_id), a as nat)
}

/// Whether every lake stands at an elevation code.
pub open spec fn lakes_level(lakes: Seq<Lake>) -> bool {
    forall|i: int| 0 <= i < lakes.len() ==> 0 <= (#[trigger] lakes[i]).surface_code <= 255
}

/// Whether all sea reaches the edge of the map.
pub open spec fn sea_is_open(size: int, land: Seq<u8>, lake_id: Seq<i32>) -> bool {
    forall|c: int|
        is_cell(size, c) && is_sea(land, lake_id, c) ==> #[trigger] is_open_sea(
            size,
            land,
            lake_id,
            c,
        )
}

/// A lake that is kept takes the place of one that does not meet the sea.
proof fn lemma_kept_from(
    size: int,
    land: Seq<u8>,
    lake_id: Seq<i32>,
    lakes: Seq<Lake>,
    n: nat,
    k: int,
) -> (i: int)
    requires
        n <= lakes.len(),
        0 <= k < kept_below(size, land, lake_id, lakes, n),
    ensures
        0 <= i < n,
        !is_coastal(size, land, lake_id, lakes, i),
        kept_below(size, land, lake_id, lakes, i as nat) == k,
    decreases n,
{
    if k < kept_below(size, land, lake_id, lakes, (n - 1) as nat) {
        lemma_kept_from(size, land, lake_id, lakes, (n - 1) as nat, k)
    } else {
        n - 1
    }
}

proof fn lemma_still_level(size: int, a: Waters, mid: Waters, b: Waters)
    requires
        coast_merged(size, a, mid),
        seas_promoted(size, mid, b),
        lakes_level(a.scratch.lakes@),
    ensures
        lakes_level(b.scratch.lakes@),
{
    let lakes = b.scratch.lakes@;
    assert forall|k: int| 0 <= k < lakes.len() implies 0 <= (#[trigger] lakes[k]).surface_code
        <= 255 by {
        if k < mid.scratch.lakes@.len() {
            assert(lakes[k] == mid.scratch.lakes@[k]);
            let i = lemma_kept_from(
                size,
                a.land,
                a.scratch.lake_id@,
                a.scratch.lakes@,
                a.scratch.lakes@.len(),
                k,
            );
            assert(merged_lake(
                size,
                a.land,
                a.scratch.lake_id@,
                a.scratch.lakes@,
                mid.scratch.lakes@,
                i,
            ));
            assert(0 <= a.scratch.lakes@[i].surface_code <= 255);
        } else {
            assert(is_hollow_lake(size, mid.land, mid.scratch.lake_id@, mid.elev, lakes[k]));
        }
    }
}

/// Settles which water is sea and which is lake: lakes at the coast run into the sea, seas
/// that are cut off become lakes, and what is left dry is numbered by landmass.
pub fn settle_water(
    size: usize,
    land: &mut [u8],
    elev_code: &mut [u8],
    scratch: &mut LakeScratch,
    landmass_id: &mut [i32],
)
    requires
        side_ok(size as int),
        old(land)@.len() == size * size,
        old(elev_code)@.len() == size * size,
        old(scratch).well_formed(size as int),
        old(landmass_id)@.len() == size * size,
    ensures
        exists|mid: Waters|
            #[trigger] coast_merged(
                size as int,
                (Waters {
                    land: old(land)@,
                    elev: old(elev_code)@,
                    scratch: *old(scratch),
                }),
                mid,
            ) && seas_promoted(
                size as int,
                mid,
                (Waters {
                    land: final(land)@,
                    elev: final(elev_code)@,
                    scratch: *final(scratch),
                }),
            ),
        masses_labelled(
            size as int,
            final(land)@,
            final(scratch).lake_id@,
            old(landmass_id)@,
            final(landmass_id)@,
        ),
        final(land)@.len() == size * size,
        final(elev_code)@.len() == size * size,
        final(scratch).well_formed(size as int),
        sea_is_open(size as int, final(land)@, final(scratch).lake_id@),
        lakes_level(old(scratch).lakes@) ==> lakes_level(final(scratch).lakes@),
{
    let ghost n = size as int;
    let ghost a = Waters { land: land@, elev: elev_code@, scratch: *scratch };
    merge_coastal_lakes_into_ocean(size, land, elev_code, scratch);
    let ghost mid = Waters { land: land@, elev: elev_code@, scratch: *scratch };
    promote_inland_seas_to_lakes(size, land, elev_code, scratch);
    let ghost b = Waters { land: land@, elev: elev_code@, scratch: *scratch };
    label_landmasses(size, land, scratch.lake_id.as_slice(), landmass_id);
    proof {
        assert(coast_merged(n, a, mid));
        assert(seas_promoted(n, mid, b));
        assert forall|c: int| is_cell(n, c) && is_sea(b.land, b.scratch.lake_id@, c) implies #[trigger] is_open_sea(
        n, b.land, b.scratch.lake_id@, c) by {
            law_no_inland_sea_left(
                n,
                mid.land,
                mid.scratch.lake_id@,
                b.scratch.lake_id@,
                c,
            );
        }
        if lakes_level(a.scratch.lakes@) {
            lemma_still_level(n, a, mid, b);
        }
    }
}

/// Whether the cells hold their climate: water is wet through and flat, each cell names its
/// biome, and nobody lives there yet.
pub open spec fn climate_packed(
    size: int,
    land: Seq<u8>,
    elev: Seq<u8>,
    humidity0: Seq<u8>,
    relief0: Seq<u8>,
    lake_id: Seq<i32>,
    cold: Seq<bool>,
    humidity: Seq<u8>,
    relief: Seq<u8>,
    cells: Seq<i32>,
) -> bool {
    &&& humidity.len() == size * size
    &&& relief.len() == size * size
    &&& cells.len() == size * size
    &&& forall|c: int|
        is_cell(size, c) ==> #[trigger] humidity[c] == if under_water(land, lake_id, c) {
            255
        } else {
            humidity0[c]
        }
    &&& forall|c: int|
        is_cell(size, c) ==> #[trigger] relief[c] == if under_water(land, lake_id, c) {
            0
        } else {
            relief0[c]
        }
    &&& forall|c: int|
        is_cell(size, c) ==> #[trigger] cells[c] == packed_cell(
            elev[c] as int,
            humidity[c] as int,
            biome_at(size, land, elev, humidity0, relief0, lake_id, cold, c),
            relief[c] as int,
            0,
        )
}

/// Whether all that lists something is a cell.
pub open spec fn keyed_by_cells<T>(size: int, m: Map<i32, Seq<T>>) -> bool {
    forall|key: i32| #[trigger] m.contains_key(key) ==> is_cell(size, key as int)
}

proof fn lemma_links_on_cells(f: RiverView, upto: nat)
    requires
        side_ok(f.size),
        upto <= f.size * f.size,
    ensures
        keyed_by_cells(f.size, links_added(f, Map::empty(), upto)),
    decreases upto,
{
    if upto > 0 {
        lemma_side(f.size);
        lemma_links_on_cells(f, (upto - 1) as nat);
    }
}

/// A drained land keeps its biomes, and its receivers lie on the grid.
proof fn lemma_drained(
    world_seed: i32,
    size: int,
    cells0: Seq<i32>,
    elev0: Seq<u8>,
    lake_id: Seq<i32>,
    lakes: Seq<Lake>,
    cells: Seq<i32>,
    elev: Seq<u8>,
    receiver: Seq<i32>,
    order: Seq<usize>,
    area: Seq<u32>,
)
    requires
        side_ok(size),
        cells0.len() == size * size,
        forall|c: int| is_cell(size, c) ==> cell_valid(#[trigger] cells0[c]),
        land_drained(
            world_seed,
            size,
            cells0,
            elev0,
            lake_id,
            lakes,
            cells,
            elev,
            receiver,
            order,
            area,
        ),
    ensures
        cells.len() == size * size,
        elev.len() == size * size,
        receiver.len() == size * size,
        forall|c: int|
            is_cell(size, c) ==> cell_valid(#[trigger] cells[c]) && cell_biome_id(cells[c])
                == cell_biome_id(cells0[c]),
        forall|c: int| is_cell(size, c) ==> #[trigger] receiver[c] < size * size,
{
    reveal(land_drained);
    lemma_side(size);
    assert forall|c: int| is_cell(size, c) implies cell_valid(#[trigger] cells[c])
        && cell_biome_id(cells[c]) == cell_biome_id(cells0[c]) by {
        assert(cells[c] == cell_raised(cells0[c], elev[c]));
        assert(cell_valid(cells0[c]));
        lemma_raised_biome(cells0[c], elev[c]);
    }
    assert forall|c: int| is_cell(size, c) implies #[trigger] receiver[c] < size * size by {
        assert(drained_cell(size, cells0, elev0, lake_id, lakes, elev, receiver, c));
    }
}

/// What a continent is drained from: its land and climate and its lakes.
pub ghost struct Climate {
    pub size: int,
    pub land: Seq<u8>,
    pub elev: Seq<u8>,
    pub humidity: Seq<u8>,
    pub relief: Seq<u8>,
    pub cold: Seq<bool>,
    pub scratch: LakeScratch,
}

/// Whether a land with packed climate was drained, `f` holds what came of it but for the
/// drained areas, and its rivers have these ports and links.
pub open spec fn land_watered(
    w: Climate,
    humidity: Seq<u8>,
    relief: Seq<u8>,
    f: RiverView,
    ports: Map<i32, Seq<Port>>,
    links: Map<i32, Seq<Link>>,
) -> bool {
    exists|packed: Seq<i32>, order: Seq<usize>, area: Seq<u32>|
        climate_packed(
            w.size,
            w.land,
            w.elev,
            w.humidity,
            w.relief,
            w.scratch.lake_id@,
            w.cold,
            humidity,
            relief,
            packed,
        ) && #[trigger] land_drained(
            f.world_seed,
            w.size,
            packed,
            w.elev,
            w.scratch.lake_id@,
            w.scratch.lakes@,
            f.cells,
            f.elev_code,
            f.receiver,
            order,
            area,
        ) && rivers_added((RiverView { area, ..f }), Map::empty(), Map::empty(), ports, links)
}

/// Names every cell's biome and lets the water run off: the packed cells and the rivers.
pub fn lay_rivers(
    world_seed: i32,
    size: usize,
    land: &[u8],
    elev_code: &mut [u8],
    humidity: &mut Vec<u8>,
    relief: &mut Vec<u8>,
    scratch: &LakeScratch,
    cold: &[bool],
) -> (r: (Vec<i32>, RiverGraph))
    requires
        side_ok(size as int),
        size <= 4096,
        land@.len() == size * size,
        old(elev_code)@.len() == size * size,
        old(humidity)@.len() == size * size,
        old(relief)@.len() == size * size,
        cold@.len() == size * size,
        scratch.well_formed(size as int),
        lakes_level(scratch.lakes@),
    ensures
        land_watered(
            (Climate {
                size: size as int,
                land: land@,
                elev: old(elev_code)@,
                humidity: old(humidity)@,
                relief: old(relief)@,
                cold: cold@,
                scratch: *scratch,
            }),
            final(humidity)@,
            final(relief)@,
            (RiverView {
                world_seed,
                size: size as int,
                cells: r.0@,
                elev_code: final(elev_code)@,
                lake_id: scratch.lake_id@,
                lakes: scratch.lakes@,
                receiver: r.1.receiver@,
                area: Seq::empty(),
            }),
            lists(r.1.ports@),
            lists(r.1.links@),
        ),
        r.0@.len() == size * size,
        final(elev_code)@.len() == size * size,
        forall|c: int|
            is_cell(size as int, c) ==> cell_valid(#[trigger] r.0@[c]) && cell_biome_id(r.0@[c])
                == biome_number(
                biome_at(
                    size as int,
                    land@,
                    old(elev_code)@,
                    old(humidity)@,
                    old(relief)@,
                    scratch.lake_id@,
                    cold@,
                    c,
                ),
            ),
        keyed_by_cells(size as int, lists(r.1.links@)),
        r.1.receiver@.len() == size * size,
        forall|c: int| is_cell(size as int, c) ==> #[trigger] r.1.receiver@[c] < size * size,
{
    let ghost n = size as int;
    let ghost elev0 = elev_code@;
    let ghost humidity0 = humidity@;
    let ghost relief0 = relief@;
    proof {
        lemma_side(n);
    }
    let count: usize = size * size;
    let mut cells: Vec<i32> = vec![0i32; count];
    classify_and_pack(
        size,
        land,
        elev_code,
        humidity,
        relief,
        scratch.lake_id.as_slice(),
        cold,
        &mut cells,
    );
    let ghost packed = cells@;
    proof {
        assert(climate_packed(
            n,
            land@,
            elev0,
            humidity0,
            relief0,
            scratch.lake_id@,
            cold@,
            humidity@,
            relief@,
            packed,
        ));
        assert forall|c: int| is_cell(n, c) implies cell_valid(#[trigger] packed[c])
            && cell_biome_id(packed[c]) == biome_number(
            biome_at(n, land@, elev0, humidity0, relief0, scratch.lake_id@, cold@, c),
        ) by {
            law_pack_round_trip(
                elev0[c] as int,
                humidity@[c] as int,
                biome_at(n, land@, elev0, humidity0, relief0, scratch.lake_id@, cold@, c),
                relief@[c] as int,
                0,
            );
        }
        assert forall|c: int|
            is_cell(n, c) && cell_biome_id(#[trigger] packed[c]) == 8 implies 0
            <= scratch.lake_id@[c] < scratch.lakes@.len() && 0
            <= scratch.lakes@[scratch.lake_id@[c] as int].surface_code <= 255 by {
            assert(biome_at(n, land@, elev0, humidity0, relief0, scratch.lake_id@, cold@, c)
                == Biome::Lake || scratch.lake_id@[c] >= 0);
            assert(scratch.lake_id@[c] >= 0);
            let l = scratch.lakes@[scratch.lake_id@[c] as int];
            assert(0 <= l.surface_code <= 255);
        }
        assert(water_known(n, packed, scratch.lake_id@, scratch.lakes@));
    }
    let mut rivers: RiverGraph = RiverGraph::new(count);
    build_rivers(
        world_seed,
        size,
        cells.as_mut_slice(),
        elev_code,
        scratch.lake_id.as_slice(),
        scratch.lakes.as_slice(),
        &mut rivers,
    );
    proof {
        let (order, area) = choose|order: Seq<usize>, area: Seq<u32>|
            #[trigger] land_drained(
                world_seed,
                n,
                packed,
                elev0,
                scratch.lake_id@,
                scratch.lakes@,
                cells@,
                elev_code@,
                rivers.receiver@,
                order,
                area,
            ) && rivers_added(
                (RiverView {
                    world_seed,
                    size: n,
                    cells: cells@,
                    elev_code: elev_code@,
                    lake_id: scratch.lake_id@,
                    lakes: scratch.lakes@,
                    receiver: rivers.receiver@,
                    area,
                }),
                Map::<i32, Seq<Port>>::empty(),
                Map::<i32, Seq<Link>>::empty(),
                lists(rivers.ports@),
                lists(rivers.links@),
            );
        let f = RiverView {
            world_seed,
            size: n,
            cells: cells@,
            elev_code: elev_code@,
            lake_id: scratch.lake_id@,
            lakes: scratch.lakes@,
            receiver: rivers.receiver@,
            area,
        };
        lemma_drained(
            world_seed,
            n,
            packed,
            elev0,
            scratch.lake_id@,
            scratch.lakes@,
            cells@,
            elev_code@,
            rivers.receiver@,
            order,
            area,
        );
        assert(keyed_by_cells(n, lists(rivers.links@))) by {
            reveal(rivers_added);
            lemma_links_on_cells(f, (n * n) as nat);
        }
        let w = Climate {
            size: n,
            land: land@,
            elev: elev0,
            humidity: humidity0,
            relief: relief0,
            cold: cold@,
            scratch: *scratch,
        };
        let g = RiverView { area: Seq::empty(), ..f };
        assert(RiverView { area, ..g } == f);
        assert(climate_packed(
            w.size,
            w.land,
            w.elev,
            w.humidity,
            w.relief,
            w.scratch.lake_id@,
            w.cold,
            humidity@,
            relief@,
            packed,
        ));
        assert(land_drained(
            g.world_seed,
            w.size,
            packed,
            w.elev,
            w.scratch.lake_id@,
            w.scratch.lakes@,
            g.cells,
            g.elev_code,
            g.receiver,
            order,
            area,
        ));
        assert(rivers_added(
            (RiverView { area, ..g }),
            Map::empty(),
            Map::empty(),
            lists(rivers.ports@),
            lists(rivers.links@),
        ));
        assert(land_watered(w, humidity@, relief@, g, lists(rivers.ports@), lists(rivers.links@)));
    }
    (cells, rivers)
}

/// Whether people settled where they were drawn to and nobody on water, and the distances
/// to the river mouths are known.
pub open spec fn people_settled(
    size: int,
    cells0: Seq<i32>,
    links: Map<i32, Seq<Link>>,
    steps: Seq<Option<i32>>,
    mouths: Seq<i32>,
    cells: Seq<i32>,
) -> bool {
    &&& mouths.len() == size * size
    &&& forall|c: int|
        is_cell(size, c) ==> #[trigger] mouths[c] == mouth_steps(size, cells0, links, c, 2)
    &&& cells.len() == size * size
    &&& forall|c: int|
        is_cell(size, c) ==> #[trigger] cells[c] == with_population(
            cells0[c],
            if wet(cells0, c) {
                0
            } else {
                drawn_population(steps[c])
            },
        )
}

/// Whether the crossings are the cells that both a river and a road run through.
pub open spec fn crossings_found(
    rivers: Map<i32, Seq<Link>>,
    roads: Map<i32, Seq<Link>>,
    crossings: Seq<Crossing>,
) -> bool {
    &&& forall|i: int|
        0 <= i < crossings.len() ==> {
            let cell = (#[trigger] crossings[i]).cell;
            &&& list_at(rivers, cell).len() > 0
            &&& list_at(roads, cell).len() > 0
            &&& crossings[i] == crossing_at(
                i,
                cell,
                list_at(rivers, cell)[0],
                list_at(roads, cell)[0],
            )
        }
    &&& forall|i: int, j: int|
        0 <= i < j < crossings.len() ==> (#[trigger] crossings[i]).cell != (
        #[trigger] crossings[j]).cell
    &&& forall|cell: i32|
        list_at(rivers, cell).len() > 0 && #[trigger] list_at(roads, cell).len() > 0
            ==> exists|i: int| 0 <= i < crossings.len() && (#[trigger] crossings[i]).cell == cell
}

/// No more nodes than cells stand, where each has its own.
proof fn lemma_nodes_fit(size: int, nodes: Seq<GraphNode>)
    requires
        side_ok(size),
        forall|i: int| 0 <= i < nodes.len() ==> is_cell(size, (#[trigger] nodes[i]).cell as int),
        forall|i: int, j: int|
            0 <= i < j < nodes.len() ==> (#[trigger] nodes[i]).cell != (#[trigger] nodes[j]).cell,
    ensures
        nodes.len() <= size * size,
{
    let at = Seq::new(nodes.len(), |i: int| nodes[i].cell);
    assert forall|i: int, j: int| 0 <= i < at.len() && 0 <= j < at.len() && i != j implies at[i]
        != at[j] by {
        if i < j {
            assert(nodes[i].cell != nodes[j].cell);
        } else {
            assert(nodes[j].cell != nodes[i].cell);
        }
    }
    lemma_side(size);
    assert forall|i: int| 0 <= i < at.len() implies 0 <= #[trigger] at[i] < size * size by {
        assert(is_cell(size, nodes[i].cell as int));
    }
    lemma_distinct_len(at, size * size);
}

/// The road graph without roads.
pub open spec fn no_roads() -> RoadsView {
    RoadsView { ports: Map::empty(), links: Map::empty(), primary_edges: Seq::empty() }
}

/// The ground that nodes are seeded on.
pub open spec fn node_ground(
    world_seed: i32,
    size: usize,
    scratch: LakeScratch,
    rivers: RiverGraph,
    mouths: Seq<i32>,
) -> NodeGround {
    NodeGround {
        world_seed,
        size: size as int,
        lake_id: scratch.lake_id@,
        rivers: rivers.links@.dom(),
        mouth: mouths,
    }
}

/// Whether nobody lives on water.
pub open spec fn water_empty(size: int, cells: Seq<i32>) -> bool {
    forall|c: int|
        is_cell(size, c) && wet(cells, c) ==> cell_pop(#[trigger] cells[c]) == 0
}

/// Whether the cells keep their biomes and elevations.
pub open spec fn same_ground(size: int, before: Seq<i32>, after: Seq<i32>) -> bool {
    forall|c: int|
        is_cell(size, c) ==> cell_biome_id(#[trigger] after[c]) == cell_biome_id(before[c])
            && cell_elevation(after[c]) == cell_elevation(before[c])
}

/// Whether people settled on a drained land and nodes were seeded among them.
pub open spec fn land_settled(
    g: NodeGround,
    links: Map<i32, Seq<Link>>,
    steps: Seq<Option<i32>>,
    cells0: Seq<i32>,
    mass0: Seq<i32>,
    cells: Seq<i32>,
    mass: Seq<i32>,
    nodes: Seq<GraphNode>,
) -> bool {
    exists|peopled: Seq<i32>|
        {
            let out = nodes_seeded(g, before_seeding(g, peopled, mass0, Seq::empty()));
            &&& #[trigger] people_settled(g.size, cells0, links, steps, g.mouth, peopled)
            &&& cells == out.cells
            &&& mass == out.landmass
            &&& nodes == out.nodes
        }
}

/// Settles people and seeds the nodes that roads will join.
fn settle_land(
    world_seed: i32,
    size: usize,
    cells: Vec<i32>,
    landmass_id: Vec<i32>,
    scratch: &LakeScratch,
    rivers: &RiverGraph,
    steps: &[Option<i32>],
) -> (r: (Vec<i32>, Vec<i32>, Vec<i32>, Vec<GraphNode>))
    requires
        side_ok(size as int),
        5 <= size <= 4096,
        cells@.len() == size * size,
        forall|c: int| is_cell(size as int, c) ==> cell_valid(#[trigger] cells@[c]),
        landmass_id@.len() == size * size,
        scratch.well_formed(size as int),
        steps@.len() == size * size,
    ensures
        land_settled(
            node_ground(world_seed, size, *scratch, *rivers, r.2@),
            lists(rivers.links@),
            steps@,
            cells@,
            landmass_id@,
            r.0@,
            r.1@,
            r.3@,
        ),
        r.0@.len() == size * size,
        forall|c: int| is_cell(size as int, c) ==> cell_valid(#[trigger] r.0@[c]),
        same_ground(size as int, cells@, r.0@),
        water_empty(size as int, r.0@),
        r.3@.len() <= size * size,
        r.3@.len() <= 0x100_0000,
        forall|i: int| 0 <= i < r.3@.len() ==> node_placed(size as int, #[trigger] r.3@[i]),
{
    let ghost n = size as int;
    let ghost cells0 = cells@;
    let ghost mass0 = landmass_id@;
    proof {
        lemma_side(n);
    }
    let mut cells: Vec<i32> = cells;
    let mut landmass_id: Vec<i32> = landmass_id;
    let mut mouth_distance: Vec<i32> = Vec::new();
    seed_population(size, &mut cells, &rivers.links, &mut mouth_distance, steps);
    let ghost peopled = cells@;
    proof {
        assert(people_settled(
            n,
            cells0,
            lists(rivers.links@),
            steps@,
            mouth_distance@,
            peopled,
        ));
        assert forall|c: int| is_cell(n, c) implies cell_valid(#[trigger] peopled[c])
            && cell_biome_id(peopled[c]) == cell_biome_id(cells0[c]) && cell_elevation(
            peopled[c],
        ) == cell_elevation(cells0[c]) && (wet(cells0, c) ==> cell_pop(peopled[c]) == 0) by {
            assert(cell_valid(cells0[c]));
            let pop = if wet(cells0, c) {
                0
            } else {
                drawn_population(steps@[c])
            };
            lemma_repopulated_valid(cells0[c], pop);
            lemma_population_of(cells0[c], pop);
        }
    }
    let mut nodes: Vec<GraphNode> = Vec::new();
    seed_nodes(
        world_seed,
        size,
        &mut cells,
        &mut landmass_id,
        scratch.lake_id.as_slice(),
        &rivers.links,
        mouth_distance.as_slice(),
        &mut nodes,
    );
    let ghost g = node_ground(world_seed, size, *scratch, *rivers, mouth_distance@);
    let ghost out = nodes_seeded(g, before_seeding(g, peopled, mass0, Seq::empty()));
    proof {
        assert(nodes@ == out.nodes);
        law_seeded_nodes_keep_apart(g, peopled, mass0);
        assert forall|i: int| 0 <= i < nodes@.len() implies node_placed(
            n,
            #[trigger] nodes@[i],
        ) && is_cell(n, nodes@[i].cell as int) by {
            assert(node_stands(g, out, out.nodes[i]));
            lemma_coords_of_number(
                n,
                nodes@[i].ax as int,
                nodes@[i].az as int,
            );
        }
        assert forall|i: int, j: int| 0 <= i < j < nodes@.len() implies (
        #[trigger] nodes@[i]).cell != (#[trigger] nodes@[j]).cell by {
            assert(keep_apart(g, out.nodes[i], out.nodes[j]));
        }
        lemma_nodes_fit(n, nodes@);
        assert(n * n <= 4096 * 4096) by (nonlinear_arith)
            requires
                0 < n <= 4096,
        ;
        assert(n * n == size * size);
        assert(ground_kept(n, peopled, out.cells));
        assert forall|c: int| is_cell(n, c) implies cell_valid(#[trigger] cells@[c])
            && cell_biome_id(cells@[c]) == cell_biome_id(cells0[c]) && cell_elevation(cells@[c])
            == cell_elevation(cells0[c]) && (wet(cells@, c) ==> cell_pop(cells@[c]) == 0) by {
            assert(cell_valid(out.cells[c]));
            assert(cell_valid(peopled[c]));
            assert(cell_biome_id(out.cells[c]) == cell_biome_id(peopled[c]));
            assert(wet(cells0, c) == wet(cells@, c));
            assert(wet(peopled, c) == wet(cells@, c));
        }
    }
    (cells, landmass_id, mouth_distance, nodes)
}

impl ContinentAtlas {
    /// The roads of the atlas.
    pub open spec fn roads(&self) -> RoadsView {
        RoadsView {
            ports: lists(self.road_ports@),
            links: lists(self.road_links@),
            primary_edges: self.primary_road_edges@,
        }
    }

    /// Settles people on a drained land, joins their places by roads and puts the atlas
    /// together. Nothing is drawn on it yet.
    pub fn assemble(
        world_seed: i32,
        size: usize,
        cells: Vec<i32>,
        elev_code: &[u8],
        landmass_id: Vec<i32>,
        scratch: LakeScratch,
        rivers: RiverGraph,
        steps: &[Option<i32>],
    ) -> (r: ContinentAtlas)
        requires
            side_ok(size as int),
            5 <= size <= 4096,
            cells@.len() == size * size,
            forall|c: int| is_cell(size as int, c) ==> cell_valid(#[trigger] cells@[c]),
            elev_code@.len() == size * size,
            landmass_id@.len() == size * size,
            scratch.well_formed(size as int),
            steps@.len() == size * size,
            keyed_by_cells(size as int, lists(rivers.links@)),
            rivers.receiver@.len() == size * size,
            forall|c: int|
                is_cell(size as int, c) ==> #[trigger] rivers.receiver@[c] < size * size,
        ensures
            r.schema_version == SCHEMA_VERSION,
            r.world_seed == world_seed,
            r.size == size,
            r.content_hash == 0,
            r.sea_surface_z == SEA_SURFACE_Z,
            r.lake_id@ == scratch.lake_id@,
            r.lakes@ == scratch.lakes@,
            r.river_ports == rivers.ports,
            r.river_links == rivers.links,
            r.river_receiver@ == rivers.receiver@,
            r.hydro.rivers@.len() == 0,
            r.hydro.lakes == 0,
            r.hydro.coasts == 0,
            land_settled(
                node_ground(world_seed, size, scratch, rivers, r.mouth_distance@),
                lists(rivers.links@),
                steps@,
                cells@,
                landmass_id@,
                r.cells@,
                r.landmass_id@,
                r.nodes@,
            ),
            if r.nodes@.len() < 2 {
                r.roads() == no_roads()
            } else {
                roads_built(
                    (RoadPlan {
                        world_seed,
                        f: road_land(size as int, r.cells@, elev_code@, rivers.links@.dom()),
                        towns: town_mask(size as int, r.nodes@),
                    }),
                    r.nodes@,
                    no_roads(),
                    r.roads(),
                )
            },
            crossings_found(lists(rivers.links@), lists(r.road_links@), r.crossings@),
            r.grid_ok(),
            r.lakes_on_grid(),
            r.rivers_on_grid(),
            r.nodes@.len() <= size * size,
            water_empty(size as int, r.cells@),
            same_ground(size as int, cells@, r.cells@),
    {
        let ghost n = size as int;
        let ghost cells0 = cells@;
        let settled: (Vec<i32>, Vec<i32>, Vec<i32>, Vec<GraphNode>) = settle_land(
            world_seed,
            size,
            cells,
            landmass_id,
            &scratch,
            &rivers,
            steps,
        );
        let (cells, landmass_id, mouth_distance, nodes) = settled;
        proof {
            assert forall|key: i32| #[trigger] rivers.links@.contains_key(key) implies is_cell(
                n,
                key as int,
            ) by {
                assert(lists(rivers.links@).contains_key(key));
            }
        }
        let mut roads: RoadGraph = RoadGraph::new();
        assert(roads@ == no_roads());
        build_roads(
            world_seed,
            size,
            cells.as_slice(),
            elev_code,
            nodes.as_slice(),
            &rivers.links,
            &mut roads,
        );
        let crossings: Vec<Crossing> = find_crossings(&rivers.links, &roads.links);
        let r = ContinentAtlas {
            schema_version: SCHEMA_VERSION,
            world_seed,
            size,
            content_hash: 0,
            sea_surface_z: SEA_SURFACE_Z,
            cells,
            landmass_id,
            lake_id: scratch.lake_id,
            lakes: scratch.lakes,
            nodes,
            crossings,
            primary_road_edges: roads.primary_edges,
            river_ports: rivers.ports,
            road_ports: roads.ports,
            river_links: rivers.links,
            road_links: roads.links,
            river_receiver: rivers.receiver,
            mouth_distance,
            hydro: HydroSummary { rivers: Vec::new(), lakes: 0, coasts: 0 },
        };
        r
    }

    /// The atlas with its drawn water and its hash.
    pub fn sealed(self, hydro: HydroSummary) -> (r: ContinentAtlas)
        requires
            side_ok(self.size as int),
            self.cells@.len() == self.size * self.size,
        ensures
            r == (ContinentAtlas { hydro, content_hash: r.content_hash, ..self }),
            r.content_hash == r.hash_of(),
    {
        let mut r = ContinentAtlas { hydro, content_hash: 0, ..self };
        let ghost was = r;
        let hash: i32 = r.compute_hash();
        r.content_hash = hash;
        assert(r.hash_of() == was.hash_of());
        r
    }
}

/// The population of a cell with another population.
proof fn lemma_population_of(cell: i32, pop: int)
    requires
        cell_valid(cell),
    ensures
        pop == 0 ==> cell_pop(with_population(cell, pop)) == 0,
{
    law_pack_round_trip(
        cell_elevation(cell) as int,
        cell_humidity(cell) as int,
        cell_biome(cell),
        cell_relief(cell) as int,
        pop,
    );
}

/// The ocean cells of a packed climate are its sea: land is never ocean.
pub proof fn law_ocean_is_sea(w: Climate, c: int)
    ensures
        biome_number(
            biome_at(
                w.size,
                w.land,
                w.elev,
                w.humidity,
                w.relief,
                w.scratch.lake_id@,
                w.cold,
                c,
            ),
        ) == 0 <==> is_sea(w.land, w.scratch.lake_id@, c),
{
}

/// An atlas whose oceans are the seas of a land with only open sea has no ocean that is cut
/// off from the edge of the map.
pub proof fn law_no_inland_ocean(
    atlas: ContinentAtlas,
    land: Seq<u8>,
    lake_id: Seq<i32>,
    ax: i32,
    az: i32,
)
    requires
        side_ok(atlas.size as int),
        forall|c: int|
            is_cell(atlas.size as int, c) ==> #[trigger] atlas.ocean_at(c) == is_sea(
                land,
                lake_id,
                c,
            ),
        sea_is_open(atlas.size as int, land, lake_id),
    ensures
        !atlas.has_fault(AtlasFault::InlandOcean { ax, az }),
{
    let n = atlas.size as int;
    let c = cell_number(n, ax as int, az as int);
    if atlas.first_inland_ocean(c) {
        lemma_side(n);
        assert(atlas.ocean_mask() =~= sea_mask(n, land, lake_id)) by {
            assert forall|d: int| 0 <= d < n * n implies atlas.ocean_mask()[d] == sea_mask(
                n,
                land,
                lake_id,
            )[d] by {
                assert(is_cell(n, d));
                assert(atlas.ocean_at(d) == is_sea(land, lake_id, d));
            }
        }
        assert(is_open_sea(n, land, lake_id, c));
        assert(atlas.open_ocean(c));
    }
}

/// Nobody lives on water in an assembled atlas.
pub proof fn law_nobody_lives_on_water(atlas: ContinentAtlas, cells: usize)
    requires
        atlas.grid_ok(),
        water_empty(atlas.size as int, atlas.cells@),
    ensures
        !atlas.has_fault(AtlasFault::PopulationOnWater { cells }),
{
    let mark = |c: int| wet(atlas.cells@, c) && cell_pop(atlas.cells@[c]) > 0;
    lemma_side(atlas.size as int);
    lemma_none_marked(atlas.size as int, mark, atlas.area());
}

proof fn lemma_none_marked(size: int, mark: spec_fn(int) -> bool, n: nat)
    requires
        n <= size * size,
        forall|c: int| is_cell(size, c) ==> !#[trigger] mark(c),
    ensures
        count_upto(mark, n) == 0,
    decreases n,
{
    if n > 0 {
        lemma_none_marked(size, mark, (n - 1) as nat);
        assert(is_cell(size, n - 1));
    }
}

/// A river in an assembled atlas never climbs: where the water of a cell runs on, the land
/// it runs to is no higher.
pub proof fn law_assembled_rivers_never_climb(
    atlas: ContinentAtlas,
    world_seed: i32,
    cells0: Seq<i32>,
    elev0: Seq<u8>,
    drained: Seq<i32>,
    elev: Seq<u8>,
    order: Seq<usize>,
    area: Seq<u32>,
    c: int,
)
    requires
        side_ok(atlas.size as int),
        is_cell(atlas.size as int, c),
        cells0.len() == atlas.size * atlas.size,
        forall|d: int| is_cell(atlas.size as int, d) ==> cell_valid(#[trigger] cells0[d]),
        land_drained(
            world_seed,
            atlas.size as int,
            cells0,
            elev0,
            atlas.lake_id@,
            atlas.lakes@,
            drained,
            elev,
            atlas.river_receiver@,
            order,
            area,
        ),
        forall|d: int|
            is_cell(atlas.size as int, d) ==> cell_elevation(#[trigger] atlas.cells@[d])
                == cell_elevation(drained[d]) && cell_biome_id(atlas.cells@[d]) == cell_biome_id(
                drained[d],
            ),
    ensures
        !atlas.climbs(c),
{
    reveal(land_drained);
    let n = atlas.size as int;
    lemma_side(n);
    let receiver = atlas.river_receiver@;
    assert(drained_cell(n, cells0, elev0, atlas.lake_id@, atlas.lakes@, elev, receiver, c));
    if atlas.climbs(c) {
        let d = receiver[c] as int;
        assert(is_cell(n, d));
        assert(drained[c] == cell_raised(cells0[c], elev[c]));
        assert(drained[d] == cell_raised(cells0[d], elev[d]));
        lemma_raised_height(cells0[c], elev[c]);
        lemma_raised_height(cells0[d], elev[d]);
        lemma_raised_biome(cells0[c], elev[c]);
        assert(cell_elevation(atlas.cells@[c]) == elev[c]);
        assert(cell_elevation(atlas.cells@[d]) == elev[d]);
    }
}

proof fn lemma_raised_height(cell: i32, elev: u8)
    ensures
        cell_elevation(cell_raised(cell, elev)) == elev,
{
    law_pack_round_trip(
        elev as int,
        cell_humidity(cell) as int,
        cell_biome(cell),
        cell_relief(cell) as int,
        cell_pop(cell) as int,
    );
}

} // verus!
