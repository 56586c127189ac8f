use orrun::atlas::biomes::{is_land, Biome};
use orrun::atlas::continent::{AtlasError, ContinentAtlas, HydroSummary, SCHEMA_VERSION};
use orrun::atlas::faults::AtlasFault;
use orrun::atlas::features::{Dir, EndpointKind, Kind, NodeKind};
use orrun::atlas::hydro::{Layer, Place, ShoreView};
use orrun::atlas::lake_plan::{try_hollow, LakePlan, LakeSearch};
use orrun::atlas::lakes::{is_local_low, lake_max_cells, lake_site_open, place_lake, LakeScratch};
use orrun::atlas::massifs::{massif_kept, massif_seed, MassifSource};
use orrun::atlas::pack;
use orrun::atlas::population::{cell_is_settlement_flat, SettlementSite};
use orrun::atlas::road_network::road_pair_weight;
use orrun::atlas::road_search::road_astar;
use orrun::atlas::stages::{lay_rivers, settle_water};
use orrun::atlas::types::{Endpoint, GraphNode, Port};
use rand::{Rng, SeedableRng};
use rand_chacha::ChaCha8Rng;

const SIZE: usize = 64;

struct Land {
    land: Vec<u8>,
    elev: Vec<u8>,
}

/// A round island that rises towards its middle, with a hollow that the sea fills.
fn island() -> Land {
    let mut land = vec![0u8; SIZE * SIZE];
    let mut elev = vec![20u8; SIZE * SIZE];
    for z in 0..SIZE as i32 {
        for x in 0..SIZE as i32 {
            let c = z as usize * SIZE + x as usize;
            let (dx, dz) = (x - 32, z - 32);
            let d = ((dx * dx + dz * dz) as f64).sqrt();
            if d < 24.0 {
                land[c] = 1;
                elev[c] = (150.0 - 4.0 * d + ((x * 7 + z * 13) % 5) as f64) as u8;
            }
        }
    }
    for z in 20..24 {
        for x in 30..34 {
            land[z * SIZE + x] = 0;
            elev[z * SIZE + x] = 20;
        }
    }
    Land { land, elev }
}

fn continent(seed: i32) -> ContinentAtlas {
    let mut ground = island();
    let count = SIZE * SIZE;
    let mut scratch = LakeScratch::new(count);
    let mut landmass = vec![-1i32; count];
    settle_water(SIZE, &mut ground.land, &mut ground.elev, &mut scratch, &mut landmass);
    let mut humidity = vec![120u8; count];
    let mut relief = vec![12u8; count];
    let cold = vec![false; count];
    let (cells, rivers) = lay_rivers(
        seed,
        SIZE,
        &ground.land,
        &mut ground.elev,
        &mut humidity,
        &mut relief,
        &scratch,
        &cold,
    );
    let steps: Vec<Option<i32>> =
        (0..count).map(|c| if c % 11 == 0 { Some((c % 7) as i32) } else { None }).collect();
    let atlas = ContinentAtlas::assemble(
        seed,
        SIZE,
        cells,
        &ground.elev,
        landmass,
        scratch,
        rivers,
        &steps,
    );
    atlas.sealed(HydroSummary { rivers: vec![(1, 4)], lakes: 1, coasts: 1 })
}

#[test]
fn cut_off_sea_becomes_a_lake() {
    let mut ground = island();
    let mut scratch = LakeScratch::new(SIZE * SIZE);
    let mut landmass = vec![-1i32; SIZE * SIZE];
    settle_water(SIZE, &mut ground.land, &mut ground.elev, &mut scratch, &mut landmass);
    assert_eq!(scratch.lakes.len(), 1);
    assert_eq!(scratch.lakes[0].cells.len(), 16);
    assert!(scratch.lakes[0].spill_cell >= 0);
    assert_eq!(landmass[32 * SIZE + 32], 0);
    assert_eq!(landmass[0], -1);
}

#[test]
fn lake_at_the_coast_runs_into_the_sea() {
    let mut ground = island();
    let mut scratch = LakeScratch::new(SIZE * SIZE);
    let basin: Vec<i32> = (0..8).map(|k| (32 * SIZE + 9 + k) as i32).collect();
    let placed = place_lake(
        SIZE,
        12,
        32,
        basin.clone(),
        4,
        &ground.land,
        &mut ground.elev,
        &mut scratch,
    );
    assert!(placed);
    assert_eq!(scratch.lakes.len(), 1);
    let mut landmass = vec![-1i32; SIZE * SIZE];
    settle_water(SIZE, &mut ground.land, &mut ground.elev, &mut scratch, &mut landmass);
    for c in &basin {
        assert_eq!(ground.land[*c as usize], 0);
        assert_eq!(scratch.lake_id[*c as usize], -1);
    }
    assert_eq!(scratch.lakes.len(), 1);
}

#[test]
fn assembled_continent_has_no_inland_ocean() {
    let atlas = continent(7);
    assert_eq!(atlas.first_inland_ocean_cell(), None);
    let faults = atlas.validate();
    for fault in &faults {
        assert!(!matches!(fault, AtlasFault::InlandOcean { .. }));
        assert!(!matches!(fault, AtlasFault::PopulationOnWater { .. }));
        assert!(!matches!(fault, AtlasFault::RiverClimbs { .. }));
        assert!(!matches!(fault, AtlasFault::RiverVanishes { .. }));
        assert!(!matches!(fault, AtlasFault::LakeTouchesOcean { .. }));
        assert!(!matches!(fault, AtlasFault::LakeNotContiguous { .. }));
        assert!(!matches!(fault, AtlasFault::DanglingPort { .. }));
        assert!(!matches!(fault, AtlasFault::RoadsNotConnected { .. }));
    }
    assert_eq!(atlas.schema_version, SCHEMA_VERSION);
    assert_eq!(atlas.sea_surface_z, 0);
}

#[test]
fn same_seed_gives_the_same_continent() {
    let a = continent(424242);
    let b = continent(424242);
    let c = continent(424243);
    assert_eq!(a.content_hash, b.content_hash);
    assert_eq!(a.cells, b.cells);
    assert_eq!(a.nodes.len(), b.nodes.len());
    assert_ne!(a.content_hash, c.content_hash);
    assert_eq!(a.content_hash, a.compute_hash());
}

#[test]
fn rivers_run_down_to_water() {
    let atlas = continent(7);
    assert!(!atlas.river_links.is_empty());
    let mut mouths = 0;
    for (&cell, links) in &atlas.river_links {
        let down = atlas.river_receiver[cell as usize];
        if down >= 0 && is_land(pack::biome(atlas.cells[down as usize])) {
            assert!(
                pack::elevation(atlas.cells[down as usize])
                    <= pack::elevation(atlas.cells[cell as usize])
            );
        }
        for link in links {
            if matches!(link.b.kind, EndpointKind::Ocean | EndpointKind::Lake) {
                mouths += 1;
            }
        }
    }
    assert!(mouths > 0);
}

#[test]
fn edge_ports_are_shared_on_an_assembled_continent() {
    let atlas = continent(7);
    for az in 0..SIZE as i32 {
        for ax in 0..SIZE as i32 - 1 {
            let a = atlas.ports_on_edge(ax, az, Dir::East, Kind::River);
            let b = atlas.ports_on_edge(ax + 1, az, Dir::West, Kind::River);
            assert_eq!(a.len(), b.len());
        }
    }
}

#[test]
fn people_live_on_land_and_roads_join_them() {
    let atlas = continent(7);
    for &cell in &atlas.cells {
        if !is_land(pack::biome(cell)) {
            assert_eq!(pack::population(cell), 0);
        }
    }
    assert!(atlas.nodes.len() >= 2);
    assert!(!atlas.road_links.is_empty());
    assert!(!atlas.primary_road_edges.is_empty());
    let mut cells: Vec<i32> = atlas.nodes.iter().map(|n| n.cell).collect();
    cells.sort();
    cells.dedup();
    assert_eq!(cells.len(), atlas.nodes.len());
    for node in &atlas.nodes {
        assert!(is_land(pack::biome(atlas.cells[node.cell as usize])));
        if node.kind == NodeKind::Settlement {
            assert!(pack::population(atlas.cells[node.cell as usize]) > 0);
        }
    }
    for crossing in &atlas.crossings {
        assert!(atlas.river_links.contains_key(&crossing.cell));
        assert!(atlas.road_links.contains_key(&crossing.cell));
    }
}

#[test]
fn atlas_is_read_by_cell() {
    let atlas = continent(7);
    assert!(atlas.is_ocean(0, 0));
    assert!(atlas.is_lake(31, 21));
    assert!(!atlas.is_ocean(32, 32));
    assert!(atlas.cell_is_water_biome(-1, 5));
    assert!(atlas.touches_land(31, 20) || atlas.touches_land(30, 20));
    assert!(atlas.touches_water(29, 21));
    assert!(!atlas.touches_water(32, 32));
    assert_eq!(atlas.water_side(29, 21, Biome::Lake), Some(Dir::East));
    assert_eq!(atlas.water_side(32, 32, Biome::Lake), None);
    assert_eq!(atlas.sheet_for_endpoint(Endpoint::ocean(), 32, 32), 0);
    assert_eq!(
        atlas.sheet_for_endpoint(Endpoint::lake(0), 32, 32),
        atlas.lakes[0].surface_z
    );
    assert_eq!(atlas.endpoint_place(Layer::Rivers, Endpoint::lake(0), 29, 21), Place::Side(Dir::East));
    assert_eq!(
        atlas.endpoint_place(Layer::Roads, Endpoint::lake(0), 29, 21),
        Place::Centre
    );
    assert_eq!(atlas.endpoint_place(Layer::Overlay, Endpoint::node(1), 29, 21), Place::Centre);
    let ringed = vec![false; SIZE * SIZE];
    let overlay = atlas.shores_to_reveal(&ringed, ShoreView::Overlay);
    let sublayer = atlas.shores_to_reveal(&ringed, ShoreView::Sublayer);
    assert!(!overlay.is_empty());
    assert!(sublayer.len() > overlay.len());
    assert!(sublayer.contains(&(31, 20)));
}

#[test]
fn broken_atlas_is_told_so() {
    let mut atlas = continent(7);
    atlas.schema_version = 1;
    assert!(atlas.validate().contains(&AtlasFault::SchemaMismatch));
    atlas.schema_version = SCHEMA_VERSION;
    // A pond of ocean in the middle of the land.
    let at = 32 * SIZE + 32;
    atlas.cells[at] = pack::pack(20, 255, Biome::Ocean, 0, 0);
    assert_eq!(atlas.first_inland_ocean_cell(), Some(at));
    assert!(atlas
        .validate()
        .contains(&AtlasFault::InlandOcean { ax: 32, az: 32 }));
    atlas.cells.pop();
    assert_eq!(atlas.validate(), [AtlasFault::CellsSizeWrong]);
    let why = AtlasFault::CellsSizeWrong.message();
    let told = AtlasError::Validation(why.clone()).message();
    assert_eq!(told, format!("atlas validation failed: {why}"));
}

#[test]
fn every_fault_is_told_in_order() {
    let mut atlas = continent(7);
    let before = atlas.validate();
    atlas.schema_version = 1;
    atlas.hydro.coasts = 0;
    atlas.hydro.rivers.push((5, 1));
    atlas.hydro.rivers.push((9, 0));
    atlas.lakes[0].spill_cell = -1;
    atlas.cells[32 * SIZE + 32] = pack::pack(20, 255, Biome::Ocean, 0, 0);
    let faults = atlas.validate();
    let at = |f: AtlasFault| faults.iter().position(|g| *g == f).unwrap();
    let order = [
        at(AtlasFault::SchemaMismatch),
        at(AtlasFault::NoCoastRings),
        at(AtlasFault::RiverTooShort { id: 5 }),
        at(AtlasFault::RiverTooShort { id: 9 }),
        at(AtlasFault::LakeWithoutSpill { id: atlas.lakes[0].id }),
        at(AtlasFault::InlandOcean { ax: 32, az: 32 }),
    ];
    assert!(order.windows(2).all(|pair| pair[0] < pair[1]));
    assert_eq!(order[0], 0);
    assert!(faults.len() >= before.len());
}

#[test]
fn only_the_first_river_faults_are_told() {
    let mut atlas = continent(7);
    let loose: Vec<Port> = (0..30)
        .map(|id| Port {
            id,
            t_seed: 0,
            kind: Kind::River,
            feature_class: 1,
            flow_sign: 1,
            surface_z: 0,
            feature_id: 0,
        })
        .collect();
    atlas.river_ports.insert(999_999, loose);
    let faults = atlas.validate();
    let dangling = faults
        .iter()
        .filter(|f| matches!(f, AtlasFault::DanglingPort { .. }))
        .count();
    assert_eq!(dangling, 21);
}

#[test]
fn roads_find_their_way_round_water() {
    let size = 8usize;
    let count = size * size;
    let mut cells = vec![pack::pack(60, 100, Biome::Plains, 4, 0); count];
    // A wall of lake with a gap at the bottom.
    for z in 0..7 {
        cells[z * size + 4] = pack::pack(60, 255, Biome::Lake, 0, 0);
    }
    let elev = vec![60u8; count];
    let flags = vec![0u8; count];
    let path = road_astar(size, &cells, &elev, &flags, &flags, 0, 7);
    assert_eq!(path.first(), Some(&0));
    assert_eq!(path.last(), Some(&7));
    assert!(path.contains(&(7 * 8 + 4)));
    for pair in path.windows(2) {
        let (a, b) = (pair[0], pair[1]);
        let (dx, dz) = ((a % 8 - b % 8).abs(), (a / 8 - b / 8).abs());
        assert_eq!(dx + dz, 1);
    }
}

#[test]
fn roads_are_searched_on_wide_grids() {
    let size = 96;
    let count = size * size;
    let mut cells = vec![pack::pack(60, 90, Biome::Plains, 0, 0); count];
    for z in 0..size - 1 {
        cells[z * size + 40] = pack::pack(0, 0, Biome::Ocean, 0, 0);
    }
    let elev = vec![60u8; count];
    let flags = vec![0u8; count];
    let near = road_astar(size, &cells, &elev, &flags, &flags, 5, 30);
    assert_eq!(near, (5..=30).collect::<Vec<i32>>());
    let far = road_astar(size, &cells, &elev, &flags, &flags, 0, 95);
    assert_eq!(far.len(), 95 + 2 * 95 + 1);
    assert!(far.contains(&(95 * 96 + 40)));
    cells[95 * size + 40] = pack::pack(0, 0, Biome::Ocean, 0, 0);
    assert!(road_astar(size, &cells, &elev, &flags, &flags, 0, 95).is_empty());
}

/// The dearness of a step onto `to`, in floats.
fn float_step(
    cells: &[i32],
    elev: &[u8],
    adjacent: &[u8],
    channel: &[u8],
    at: usize,
    to: usize,
) -> f32 {
    let word = cells[to];
    let rise = (i32::from(elev[to]) - i32::from(elev[at])).abs();
    let mut step = 1.45f32 + pack::relief(word) as f32 * 0.06;
    step += rise as f32 * 0.08;
    if pack::biome(word) == Biome::Alpine {
        step += 0.5;
    }
    if channel[to] != 0 {
        step += 0.55;
    } else if adjacent[to] != 0 {
        step -= 0.2;
    }
    step -= (pack::population(word) as f32 * 0.035).min(0.45);
    step.max(1.0)
}

#[test]
fn roads_add_their_costs_as_floats_do() {
    let size = 24usize;
    let count = size * size;
    let mut rng = ChaCha8Rng::seed_from_u64(77);
    for _ in 0..60 {
        let mut cells = Vec::new();
        let mut elev = Vec::new();
        let mut adjacent = Vec::new();
        let mut channel = Vec::new();
        for _ in 0..count {
            let biome = match rng.gen_range(0..12) {
                0 => Biome::Ocean,
                1 => Biome::Lake,
                2 | 3 => Biome::Alpine,
                _ => Biome::Plains,
            };
            let relief = rng.gen_range(0..64);
            cells.push(pack::pack(60, 90, biome, relief, rng.gen_range(0..16)));
            elev.push(rng.gen_range(40u8..90));
            adjacent.push(rng.gen_range(0u8..2));
            channel.push(u8::from(rng.gen_range(0..5) == 0));
        }
        let (start, goal) = (rng.gen_range(0..count), rng.gen_range(0..count));
        let away = |c: usize| {
            (c % size).abs_diff(goal % size) as f32 + (c / size).abs_diff(goal / size) as f32
        };
        let mut cost = vec![f32::INFINITY; count];
        let mut from = vec![None; count];
        let mut done = vec![false; count];
        let mut open = vec![(away(start), start)];
        cost[start] = 0.0;
        let mut found = false;
        while !open.is_empty() {
            // The least sum comes first, of equal ones the greater cell.
            let mut best = 0;
            for i in 1..open.len() {
                if open[i].0 < open[best].0 || (open[i].0 == open[best].0 && open[i].1 > open[best].1)
                {
                    best = i;
                }
            }
            let (_, at) = open.swap_remove(best);
            if at == goal {
                found = true;
                break;
            }
            if done[at] {
                continue;
            }
            done[at] = true;
            let (x, z) = (at % size, at / size);
            let mut sides = Vec::new();
            if z > 0 {
                sides.push(at - size);
            }
            if x + 1 < size {
                sides.push(at + 1);
            }
            if z + 1 < size {
                sides.push(at + size);
            }
            if x > 0 {
                sides.push(at - 1);
            }
            for to in sides {
                let wet = matches!(pack::biome(cells[to]), Biome::Ocean | Biome::Lake);
                let sum = cost[at] + float_step(&cells, &elev, &adjacent, &channel, at, to);
                if done[to] || wet || sum >= cost[to] {
                    continue;
                }
                cost[to] = sum;
                from[to] = Some(at);
                open.push((sum + away(to), to));
            }
        }
        let mut way = Vec::new();
        if found {
            let mut at = goal;
            way.push(at as i32);
            while let Some(before) = from[at] {
                at = before;
                way.push(at as i32);
            }
            way.reverse();
        }
        let road = road_astar(
            size,
            &cells,
            &elev,
            &adjacent,
            &channel,
            start as i32,
            goal as i32,
        );
        assert_eq!(road, way);
    }
}

#[test]
fn road_weights_multiply_as_floats_do() {
    let size = 64usize;
    let node = |kind: NodeKind, cell: i32| GraphNode {
        id: cell,
        kind,
        cell,
        ax: cell % 64,
        az: cell / 64,
        landmass: 0,
    };
    let factor = |pop: i32, kind: NodeKind| {
        let thinned = 1.0f32 + (0.72f32 - 1.0f32) * (pop as f32 / 15.0);
        if kind == NodeKind::Settlement {
            thinned * 0.85
        } else {
            thinned
        }
    };
    let mut cells = vec![pack::pack(60, 90, Biome::Plains, 0, 0); size * size];
    for from in 0..16 {
        cells[0] = pack::pack(60, 90, Biome::Plains, 0, from);
        for to in 0..16 {
            for cell in [1i32, 7, 63, 64 * 13 + 5, 64 * 64 - 1] {
                cells[cell as usize] = pack::pack(60, 90, Biome::Plains, 0, to);
                for kind in [NodeKind::Settlement, NodeKind::Landmark] {
                    let a = node(NodeKind::Settlement, 0);
                    let b = node(kind, cell);
                    let d = (b.ax + b.az) as f32;
                    let weight = d * factor(from, a.kind) * factor(to, b.kind);
                    // Weights are held in parts of 2^48.
                    let parts = f64::from(weight) * 281_474_976_710_656.0;
                    assert_eq!(road_pair_weight(size, &cells, &a, &b), parts as i128);
                }
            }
        }
    }
}

#[test]
fn shares_are_told_as_floats_are() {
    for whole in 1..300usize {
        for part in 0..=whole {
            let percent = 100.0 * part as f32 / whole as f32;
            assert_eq!(
                AtlasFault::CollarWeak { ocean: part, border: whole }.message(),
                format!("ocean collar weak ({percent:.0}% ocean on border)")
            );
        }
    }
    let (occupied, land) = (150_000_001usize, 200_000_003usize);
    let percent = 100.0 * occupied as f32 / land as f32;
    assert_eq!(
        AtlasFault::PopulationNotSparse { occupied, land }.message(),
        format!("population not sparse ({percent:.0}% of land occupied)")
    );
}

#[test]
fn lake_search_goes_over_the_grid() {
    let plan = LakePlan::new(128);
    let mut search = LakeSearch::start(plan);
    let mut rng = ChaCha8Rng::seed_from_u64(9);
    let mut sites = 0;
    while let Some((ax, az)) = search.next_site(plan, 0, &mut rng) {
        assert!(ax >= 0 && az >= 0 && ax < 128 && az < 128);
        sites += 1;
        assert!(sites < 1_000_000);
    }
    assert!(sites > 0);
    assert_eq!(search.next_site(plan, plan.want as usize, &mut rng), None);
    assert!(try_hollow(true, &mut rng));
    let tried = (0..200).filter(|_| try_hollow(false, &mut rng)).count();
    assert!(tried > 20 && tried < 180);
}

#[test]
fn lake_draws_are_those_of_the_generator() {
    let plan = LakePlan::new(128);
    let mut search = LakeSearch::start(plan);
    let mut rng = ChaCha8Rng::seed_from_u64(9);
    let mut mirror = ChaCha8Rng::seed_from_u64(9);
    let (mut ax, mut az) = (0, 0);
    while let Some(site) = search.next_site(plan, 0, &mut rng) {
        ax = site.0;
        az = site.1;
    }
    // The last site was drawn, not stepped to: draw as often from the same seed.
    let mut last = (0, 0);
    let lo = plan.collar;
    let hi = plan.size - plan.collar;
    for _ in 0..100_000 {
        let x: i32 = mirror.gen_range(lo..hi);
        let z: i32 = mirror.gen_range(lo..hi);
        last = (x, z);
        if last == (ax, az) {
            break;
        }
    }
    assert_eq!(last, (ax, az));
}

#[test]
fn lakes_lie_in_hollows() {
    let mut ground = island();
    let at = 40 * SIZE + 40;
    ground.elev[at] = 40;
    assert!(is_local_low(40, 40, SIZE, &ground.elev, &ground.land));
    assert!(!is_local_low(32, 33, SIZE, &ground.elev, &ground.land));
    let free = vec![-1i32; SIZE * SIZE];
    assert!(lake_site_open(40, 40, SIZE, &ground.land, &free));
    assert!(!lake_site_open(0, 0, SIZE, &ground.land, &free));
    assert!(lake_max_cells(SIZE) >= 6);
}

#[test]
fn massifs_stand_on_high_ground() {
    let size = 16usize;
    let count = size * size;
    let land = vec![1u8; count];
    let lake_id = vec![-1i32; count];
    let mut elev = vec![100u8; count];
    let mut relief = vec![10u8; count];
    let crest = vec![true; count];
    let mut score = vec![0i64; count];
    for (c, s) in [(5 * size + 5, 7i64), (10 * size + 10, 9)] {
        elev[c] = 200;
        relief[c] = 40;
        score[c] = s;
    }
    let source = MassifSource {
        size,
        land: &land,
        lake_id: &lake_id,
        elev_code: &elev,
        relief: &relief,
        on_crest: &crest,
        score: &score,
    };
    assert_eq!(source.candidates(), [10 * size + 10, 5 * size + 5]);
    assert_ne!(massif_seed(1, 2, 3), massif_seed(1, 3, 2));
    assert!(massif_kept(0, false, 4, true));
    assert!(!massif_kept(0, true, 4, true));
    assert!(!massif_kept(0, false, 3, true));
    assert!(!massif_kept(512, false, 4, true));
}

#[test]
fn settlements_want_level_ground() {
    let atlas = continent(7);
    assert!(!cell_is_settlement_flat(0, 0, SIZE, &atlas.cells));
    let mut cells = atlas.cells.clone();
    for z in 31..34 {
        for x in 31..34 {
            cells[z * SIZE + x] = pack::pack(80, 100, Biome::Plains, 4, 0);
        }
    }
    assert!(cell_is_settlement_flat(32, 32, SIZE, &cells));
    cells[32 * SIZE + 33] = pack::pack(255, 100, Biome::Alpine, 4, 0);
    assert!(!cell_is_settlement_flat(32, 32, SIZE, &cells));
    assert!(SettlementSite::RiverMouth.weight() > SettlementSite::Inland.weight());
    // Weights are floats in parts of 2^24: the last is 0.55.
    assert_eq!(SettlementSite::Inland.weight() as f64, f64::from(0.55f32) * 16_777_216.0);
}
