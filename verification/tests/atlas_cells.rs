use orrun::atlas::biomes::{is_land, is_water, Biome};
use orrun::atlas::classify::classify_land;
use orrun::atlas::faults::AtlasFault;
use orrun::atlas::features::{edge_key, edge_owner, opposite_dir, Dir, Kind, NodeKind, RoadClass};
use orrun::atlas::grid::{in_bounds, index_of, neighbor};
use orrun::atlas::hydro::{
    dominant_body, drawn_half_width, edge_port_key, half_width_for_class, hash_u32, hash_unit_word,
    link_sink, sink_flags, stamp_cells, unique_links, wet_samples, CellBlock, CellTally, HydroSink,
    WaterBody, WaterBodyKind,
};
use orrun::atlas::landmask::{cells_to_edge, collar_cells};
use orrun::atlas::open_heap::OpenHeap;
use orrun::atlas::pack::{
    biome, elevation, elevation_to_metres, humidity, metres_to_elevation, pack, population, relief,
};
use orrun::atlas::preview::{biome_rgba, elevation_rgba};
use orrun::atlas::probe::{best_column, ColumnProbe, Seek};
use orrun::atlas::reaches::{river_course, stitch, unique_pred, unique_succ, Reach};
use orrun::atlas::rings::{extract_rings, lake_region, longest_ring, mass_region};
use orrun::atlas::rivers::{dir_from_delta, river_class};
use orrun::atlas::road_paths::Closeness;
use orrun::atlas::roads::pair_key;
use orrun::atlas::seeds::{decimal_text, feature_hash, layer_seed};
use orrun::atlas::types::{Endpoint, Link};
use orrun::atlas::union_find::{count_linked, uf_find, uf_union, Sets};
use orrun::hamlet::{catalog_color, house_color, Dwelling, Rgb};
use std::hash::{Hash, Hasher};

#[test]
fn elevation_endpoints() {
    assert!(elevation_to_metres(0) < 0);
    assert_eq!(elevation_to_metres(32), 0);
    assert!(elevation_to_metres(40) > 0);
    assert!(elevation_to_metres(40) <= 20 + 1);
    assert!(elevation_to_metres(120) < 500);
    assert!(elevation_to_metres(200) >= 1200);
    assert!(elevation_to_metres(255) >= 3500);
    assert!(elevation_to_metres(255) <= 4000);
    assert!((elevation_to_metres(metres_to_elevation(100)) - 100).abs() <= 12);
    assert!((elevation_to_metres(metres_to_elevation(3000)) - 3000).abs() <= 80);
}

#[test]
fn elevation_mapping_endpoints() {
    assert!(elevation_to_metres(0) < 0);
    assert_eq!(elevation_to_metres(32), 0);
    assert!(elevation_to_metres(40) > 0);
    assert!(elevation_to_metres(40) <= 21);
    assert!(elevation_to_metres(120) < 500);
    assert!(elevation_to_metres(200) >= 1200);
    assert!(elevation_to_metres(255) >= 3500);
    assert!(elevation_to_metres(255) <= 4000);
    assert!((elevation_to_metres(metres_to_elevation(100)) - 100).abs() <= 12);
    assert!((elevation_to_metres(metres_to_elevation(3000)) - 3000).abs() <= 80);
}

fn metres_by_formula(code: i32) -> i32 {
    if code <= 32 {
        return (-80.0f32 + (0.0 - -80.0f32) * (code as f32 / 32.0)) as i32;
    }
    if code <= 40 {
        let u = (code - 33) as f32 / (40 - 33) as f32;
        return (0.0f32 + (20.0 - 0.0f32) * u) as i32;
    }
    let k = 4.0f32;
    let t = (code - 41) as f32 / (255 - 41) as f32;
    let shaped = ((k * t).exp() - 1.0) / (k.exp() - 1.0);
    (20.0f32 + (4000.0 - 20.0f32) * shaped) as i32
}

#[test]
fn metres_follow_the_formula() {
    for code in 0..=255 {
        assert_eq!(elevation_to_metres(code), metres_by_formula(code), "code {}", code);
    }
}

fn code_by_formula(metres: i32) -> i32 {
    let m = metres as f32;
    if m <= 0.0 {
        return (((m - -80.0) / (0.0 - -80.0) * 32.0) as i32).clamp(0, 32);
    }
    if m <= 20.0 {
        return 33 + (m / 20.0 * 7.0) as i32;
    }
    let ratio = ((m - 20.0) / 3980.0f32).clamp(0.0, 1.0);
    let k = 4.0f32;
    let t = (1.0 + ratio * (k.exp() - 1.0)).ln() / k;
    (41 + (t * 214.0 + 0.5) as i32).clamp(41, 255)
}

#[test]
fn codes_follow_the_formula() {
    for metres in -200..=4200 {
        assert_eq!(metres_to_elevation(metres), code_by_formula(metres), "{} m", metres);
    }
}

#[test]
fn pack_roundtrip() {
    let packed = pack(120, 200, Biome::Forest, 40, 3);
    assert_eq!(elevation(packed), 120);
    assert_eq!(humidity(packed), 200);
    assert_eq!(biome(packed), Biome::Forest);
    assert_eq!(relief(packed), 40);
    assert_eq!(population(packed), 3);
}

#[test]
fn packing_clamps_its_parts() {
    let packed = pack(300, -4, Biome::Lake, 99, 20);
    assert_eq!(elevation(packed), 255);
    assert_eq!(humidity(packed), 0);
    assert_eq!(biome(packed), Biome::Lake);
    assert_eq!(relief(packed), 63);
    assert_eq!(population(packed), 15);
}

#[test]
fn biomes_have_numbers_and_names() {
    for id in 0..=8 {
        assert_eq!(Biome::from_id(id).id(), id);
    }
    assert_eq!(Biome::Tundra.name(), "tundra");
    assert!(is_water(Biome::Lake) && is_water(Biome::Ocean));
    assert!(is_land(Biome::Coast) && !is_land(Biome::Ocean));
    assert_eq!(classify_land(255, 100, 40, true), Biome::Alpine);
}

#[test]
fn edges_are_shared_by_two_cells() {
    let size = 16;
    assert_eq!(
        edge_key(4, 5, Dir::East, size),
        edge_key(5, 5, Dir::West, size)
    );
    assert_eq!(
        edge_key(4, 5, Dir::South, size),
        edge_key(4, 6, Dir::North, size)
    );
    let (ox, oz, dir) = edge_owner(edge_key(5, 5, Dir::West, size));
    assert_eq!((ox, oz, dir), (4, 5, Dir::East));
    assert_eq!(opposite_dir(Dir::North), Dir::South);
    assert_eq!(Dir::East.delta(), (1, 0));
    assert_eq!(RoadClass::Primary.number(), 0);
    assert!(NodeKind::Settlement.number() != NodeKind::Dungeon.number());
}

#[test]
fn grid_steps_stay_on_the_grid() {
    assert!(in_bounds(0, 15, 16));
    assert!(!in_bounds(-1, 0, 16));
    assert!(!in_bounds(0, 16, 16));
    assert_eq!(index_of(3, 2, 16), 35);
    assert_eq!(neighbor(16, 0, 0), Some(1));
    assert!((0..4).any(|k| neighbor(16, 0, k).is_none()));
    assert_eq!(collar_cells(0), 6);
    assert_eq!(collar_cells(128), 6);
    assert_eq!(collar_cells(1000), 48);
    assert_eq!(collar_cells(40_000_000), 1_920_000);
    assert_eq!(cells_to_edge(3, 9, 128), 3);
}

#[test]
fn seeds_are_stable_and_apart() {
    assert_eq!(layer_seed(5, "rivers"), layer_seed(5, "rivers"));
    assert_ne!(layer_seed(5, "rivers"), layer_seed(5, "roads"));
    assert_ne!(layer_seed(5, "rivers"), layer_seed(6, "rivers"));
    assert!(feature_hash(&["river", "3"]) >= 0);
    assert_ne!(feature_hash(&["river", "3"]), feature_hash(&["river", "4"]));
    assert_eq!(decimal_text(-120), "-120");
}

#[test]
fn seeds_are_those_of_the_hasher() {
    let mut h = rustc_hash::FxHasher::default();
    20260809i32.hash(&mut h);
    b':'.hash(&mut h);
    "atlas_nodes".hash(&mut h);
    assert_eq!(layer_seed(20260809, "atlas_nodes"), h.finish() as u32);
}

#[test]
fn heap_gives_the_least_first() {
    let mut heap = OpenHeap::new();
    heap.push((5, 1));
    heap.push((2, 9));
    heap.push((2, 4));
    heap.push((7, 0));
    let mut out = Vec::new();
    while let Some(entry) = heap.pop() {
        out.push(entry.0);
    }
    assert_eq!(out, [2, 2, 5, 7]);
}

#[test]
fn sets_are_joined() {
    let mut sets = Sets::new(6);
    uf_union(&mut sets, 0, 1);
    uf_union(&mut sets, 1, 4);
    assert_eq!(uf_find(&mut sets, 4), uf_find(&mut sets, 0));
    assert_ne!(uf_find(&mut sets, 4), uf_find(&mut sets, 2));
    assert_eq!(count_linked(&vec![7, 8, 9], &vec![(7, 8), (8, 9)]), 3);
    assert_eq!(count_linked(&vec![7, 8, 9], &vec![(7, 8)]), 2);
    assert_eq!(pair_key(9, 4), (4, 9));
}

#[test]
fn rivers_widen_with_their_area() {
    assert_eq!(river_class(1), 1);
    assert!(river_class(100_000) == 4);
    assert_eq!(half_width_for_class(0), 10);
    assert_eq!(half_width_for_class(2), 16);
    assert_eq!(half_width_for_class(9), 34);
    assert_eq!(drawn_half_width(3), 30);
    assert_eq!(dir_from_delta(1, 0), Some(Dir::East));
    assert_eq!(dir_from_delta(-2, 1), Some(Dir::West));
    assert_eq!(dir_from_delta(1, -2), Some(Dir::North));
    assert_eq!(dir_from_delta(0, 0), None);
}

fn link(a: Endpoint, b: Endpoint, class: i32) -> Link {
    Link { a, b, kind: Kind::Road, feature_class: class, feature_id: class }
}

#[test]
fn links_know_their_sink() {
    let port = Endpoint::edge_port(7, 1);
    assert_eq!(link_sink(&link(port, Endpoint::ocean(), 1)), HydroSink::Ocean);
    assert_eq!(link_sink(&link(port, Endpoint::lake(4), 1)), HydroSink::Lake { lake_id: 4 });
    assert_eq!(link_sink(&link(port, port, 1)), HydroSink::Ocean);
    assert_eq!(sink_flags(&link(port, Endpoint::lake(4), 1)), (false, Some(4)));
    assert_eq!(sink_flags(&link(port, Endpoint::ocean(), 1)), (true, None));
    assert_eq!(sink_flags(&link(port, port, 1)), (false, None));
    assert_eq!(edge_port_key(port), Some((7, 1)));
    assert_eq!(edge_port_key(Endpoint::node(3)), None);
}

#[test]
fn doubled_links_are_kept_once() {
    let a = Endpoint::edge_port(1, 1);
    let b = Endpoint::edge_port(2, 1);
    let c = Endpoint::node(3);
    let links = [link(a, b, 3), link(b, a, 1), link(a, c, 2), link(a, b, 1)];
    assert_eq!(unique_links(&links), [1, 2]);
}

#[test]
fn words_are_stirred() {
    let mut x = 1u32.wrapping_mul(0x9E37_79B9).wrapping_add(2);
    x = x.wrapping_mul(0x85EB_CA6B).wrapping_add(3);
    x ^= x >> 16;
    x = x.wrapping_mul(0x7FEB_352D);
    x ^= x >> 15;
    assert_eq!(hash_u32(1, 2, 3), x);
    assert_eq!(hash_unit_word(1, 2, 3, 0), x);
    assert_ne!(hash_unit_word(1, 2, 3, 4), x);
}

#[test]
fn blocks_are_stamped_inside_the_grid() {
    let size = 8usize;
    let mut index: Vec<Vec<u32>> = vec![Vec::new(); size * size];
    let block = CellBlock { x0: -2, x1: 1, z0: 6, z1: 20 };
    stamp_cells(&mut index, size, 5, block);
    stamp_cells(&mut index, size, 5, block);
    let marked: Vec<usize> = (0..size * size).filter(|&c| !index[c].is_empty()).collect();
    assert_eq!(marked, [48, 49, 56, 57]);
    assert_eq!(index[48], [5]);
}

#[test]
fn cells_are_tinted_by_their_water() {
    let lake = |id| Some(WaterBody::Lake { id });
    let river = Some(WaterBody::River);
    let ocean = Some(WaterBody::Ocean);
    assert_eq!(
        dominant_body(&[lake(3), lake(3), lake(8), ocean, ocean, None]),
        WaterBodyKind::Lake { lake_id: 3 }
    );
    assert_eq!(dominant_body(&[lake(3), lake(8)]), WaterBodyKind::Lake { lake_id: 8 });
    assert_eq!(dominant_body(&[river, river, ocean, lake(1)]), WaterBodyKind::River);
    assert_eq!(dominant_body(&[river, ocean]), WaterBodyKind::Ocean);
    assert_eq!(dominant_body(&[]), WaterBodyKind::Ocean);
    assert_eq!(wet_samples(&[river, None, Some(WaterBody::Pond)]), 2);
}

#[test]
fn summaries_read_as_before() {
    let tally = CellTally {
        ax: 3,
        az: 14,
        biome: Biome::Coast,
        wet: 900,
        shores: 2,
        rivers: 1,
        roads: 0,
    };
    assert_eq!(
        tally.overlay_summary(),
        "overlay (3,14) coast  wet=900/4096  shores=2  rivers=1  roads=0"
    );
    assert_eq!(
        tally.sublayer_summary(),
        "sublayer (3,14) coast  wet_samples=900/6400  shores=2  rivers=1  roads=0"
    );
}

#[test]
fn previews_paint_every_cell() {
    let cells = [pack(10, 255, Biome::Ocean, 0, 0), pack(120, 80, Biome::Plains, 5, 0)];
    assert_eq!(elevation_rgba(&cells), [20, 40, 75, 255, 120, 100, 80, 255]);
    let palette = [(1u8, 2u8, 3u8); 9];
    assert_eq!(biome_rgba(&cells, &palette), [1, 2, 3, 255, 1, 2, 3, 255]);
}

#[test]
fn best_columns_are_found() {
    let p = |wet, wetness, ground, timber| ColumnProbe { wet, wetness, ground, timber };
    let columns = [p(true, 9, 1, 50), p(false, -3, 40, 5), p(false, -8, 40, 7), p(true, 9, 90, 0)];
    assert_eq!(best_column(&columns, Seek::Wettest), Some(0));
    assert_eq!(best_column(&columns, Seek::Driest), Some(2));
    assert_eq!(best_column(&columns, Seek::Summit), Some(1));
    assert_eq!(best_column(&columns, Seek::Timber), Some(2));
    assert_eq!(best_column(&columns, Seek::Lowland), Some(1));
    assert_eq!(best_column(&[p(true, 1, 1, 1)], Seek::Summit), None);
}

#[test]
fn rings_go_round_a_region() {
    let size = 5usize;
    let mask = lake_region(size, &[6, 7, 11, 99, -1]);
    assert_eq!(mask.iter().filter(|&&m| m).count(), 3);
    let rings = extract_rings(size, &mask);
    assert_eq!(rings.len(), 1);
    // An angle of three cells has eight corners on its outline.
    assert_eq!(rings[0].len(), 8);
    assert_eq!(rings[0][0], 7);
    assert_eq!(longest_ring(&rings), Some(0));
    assert_eq!(longest_ring(&[]), None);
    assert!(extract_rings(size, &vec![false; 25]).is_empty());
}

#[test]
fn holes_have_rings_of_their_own() {
    let size = 5usize;
    let ring_cells = [6, 7, 8, 11, 13, 16, 17, 18];
    let mask = lake_region(size, &ring_cells);
    let rings = extract_rings(size, &mask);
    assert_eq!(rings.len(), 2);
    let at = longest_ring(&rings).unwrap();
    assert_eq!(rings[at].len(), 12);
    assert_eq!(rings[1 - at].len(), 4);
}

#[test]
fn landmasses_are_outlined_without_lakes() {
    let size = 2usize;
    let cells = [
        pack(40, 0, Biome::Plains, 0, 0),
        pack(40, 0, Biome::Lake, 0, 0),
        pack(40, 0, Biome::Coast, 0, 0),
        pack(40, 0, Biome::Plains, 0, 0),
    ];
    assert_eq!(mass_region(size, &cells, &[0, 0, 0, 1], 0), [true, false, true, false]);
}

fn reach(a: Option<(i32, i32)>, b: Option<(i32, i32)>, class: i32) -> Reach {
    Reach { a_edge: a, b_edge: b, class, sink: HydroSink::Ocean }
}

#[test]
fn reaches_are_stitched_to_whole_rivers() {
    let reaches = [
        reach(Some((2, 1)), Some((3, 1)), 2),
        reach(None, Some((1, 1)), 1),
        reach(Some((3, 1)), None, 4),
        reach(Some((1, 1)), Some((2, 1)), 1),
        reach(None, Some((9, 1)), 1),
        reach(None, Some((9, 1)), 1),
        reach(Some((9, 1)), None, 3),
    ];
    assert_eq!(unique_succ(&reaches, 1), Some(3));
    assert_eq!(unique_pred(&reaches, 0), Some(3));
    assert_eq!(unique_succ(&reaches, 4), None);
    let chains = stitch(&reaches);
    assert_eq!(chains[0], [1, 3, 0, 2]);
    assert_eq!(chains.len(), 4);
    let course = river_course(&reaches, &chains[0]);
    assert_eq!(course.class, 4);
    assert!(course.at_sink);
    assert!(!river_course(&reaches, &chains[1]).at_sink);
}

#[test]
fn rivers_come_by_their_smallest_reach() {
    let reaches = [
        reach(None, Some((5, 1)), 1),
        reach(Some((8, 1)), None, 1),
        reach(None, Some((6, 1)), 1),
        reach(None, Some((8, 1)), 1),
        reach(Some((6, 1)), None, 1),
        reach(Some((5, 1)), None, 1),
    ];
    let chains = stitch(&reaches);
    assert_eq!(chains, [vec![0, 5], vec![3, 1], vec![2, 4]]);
}

#[test]
fn circling_reaches_are_stitched_once() {
    let reaches = [reach(Some((1, 1)), Some((2, 1)), 1), reach(Some((2, 1)), Some((1, 1)), 1)];
    assert_eq!(stitch(&reaches).len(), 1);
}

fn closeness(points: &[(f32, f32)]) -> Closeness {
    let n = points.len();
    let mut near = Vec::new();
    let mut same = Vec::new();
    for a in points {
        for b in points {
            let d = ((a.0 - b.0) * (a.0 - b.0) + (a.1 - b.1) * (a.1 - b.1)).sqrt();
            near.push(d < 12.0);
            same.push(d < 2.0);
        }
    }
    Closeness { count: n, near, same }
}

#[test]
fn duplicate_corridors_do_not_scribble() {
    let points = [(0.0, 0.0), (500.0, 0.0), (1000.0, 0.0), (1500.0, 0.0), (2000.0, 0.0)];
    let c = closeness(&points);
    let a = vec![0usize, 1, 2];
    let b = vec![2usize, 3, 4];
    let chains = c.stitch_polylines(c.dedupe_pieces(vec![
        a.clone(),
        b.clone(),
        a,
        b.clone(),
        {
            let mut rev = b;
            rev.reverse();
            rev
        },
    ]));
    assert_eq!(chains.len(), 1, "one road, not a bundle of copies");
    let p = &chains[0];
    assert_eq!(p.len(), 5);
    let first = points[p[0]].0;
    let last = points[*p.last().unwrap()].0;
    assert!(first < 1.0 || (first - 2000.0).abs() < 1.0);
    assert!((last - 2000.0).abs() < 1.0 || last < 1.0);
}

#[test]
fn corridors_that_fold_back_are_dropped() {
    let points = [(0.0, 0.0), (100.0, 0.0), (200.0, 0.0), (100.0, 5.0), (0.0, 300.0)];
    let c = closeness(&points);
    let chains = c.stitch_polylines(vec![vec![0, 1, 2], vec![2, 3, 4]]);
    assert_eq!(chains, [vec![0, 1, 2]]);
}

#[test]
fn faults_are_put_in_words() {
    assert_eq!(AtlasFault::SchemaMismatch.message(), "schema_version mismatch");
    assert_eq!(AtlasFault::TooLittleLand { land: 4 }.message(), "too little land (4 cells)");
    assert!(AtlasFault::InlandOcean { ax: 2, az: 3 }.message().contains("inland ocean"));
}

#[test]
fn hamlets_are_coloured() {
    assert_eq!(catalog_color("Well"), Rgb { r: 120, g: 180, b: 220 });
    assert_eq!(catalog_color("Sawmill"), catalog_color("Mill"));
    assert_eq!(catalog_color("Shed"), Rgb { r: 190, g: 150, b: 110 });
    let small = Dwelling { cells_x: 2, cells_z: 3, storeys: 1 };
    let tall = Dwelling { storeys: 2, ..small };
    assert_eq!(house_color("", Some(small)), Rgb { r: 196, g: 168, b: 120 });
    assert_eq!(house_color("", Some(tall)), Rgb { r: 172, g: 150, b: 108 });
    assert_eq!(house_color("", None), Rgb { r: 190, g: 150, b: 110 });
    assert_eq!(house_color("Inn", Some(small)), catalog_color("Inn"));
}
