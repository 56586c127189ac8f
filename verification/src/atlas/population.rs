//! Where people settle: river mouths, confluences, level ground.

use crate::atlas::biomes::is_land;
use crate::atlas::cell_map::{lists, map_get};
use crate::atlas::drainage::wet;
use crate::atlas::features::EndpointKind;
use crate::atlas::grid::{
    cell_number, in_bounds, index_of, inside, is_cell, lemma_cell_coords, lemma_coords_of_number,
    lemma_side, side_ok,
};
use crate::atlas::lakes::{NEIGHBOR_DX, NEIGHBOR_DZ};
use crate::atlas::pack::{
    biome, cell_biome, cell_elevation, cell_humidity, cell_relief, cell_valid, clamped, code_metres,
    elevation, elevation_to_metres, humidity, pack, packed_cell, relief,
};
use crate::atlas::roads::around;
use crate::atlas::types::Link;
use rustc_hash::FxHashMap;
use vstd::prelude::*;

verus! {

/// How many steps from a river mouth its pull is felt.
pub const POPULATION_MOUTH_RADIUS: i32 = 2;

/// Where a settlement prefers to sit, for weighted seeding.
#[derive(Clone, Copy, Debug, PartialEq, Eq, Structural)]
pub enum SettlementSite {
    RiverMouth,
    Confluence,
    NearRiver,
    Inland,
}

/// The weight of a site in parts of 2^24: 4, 2.5, 1.5 and 0.55.
pub open spec fn site_weight(site: SettlementSite) -> int {
    match site {
        SettlementSite::RiverMouth => 67_108_864,
        SettlementSite::Confluence => 41_943_040,
        SettlementSite::NearRiver => 25_165_824,
        SettlementSite::Inland => 9_227_469,
    }
}

impl SettlementSite {
    /// The weight of the site in parts of 2^24.
    pub fn weight(self) -> (r: u32)
        ensures
            r == site_weight(self),
    {
        match self {
            SettlementSite::RiverMouth => 67_108_864,
            SettlementSite::Confluence => 41_943_040,
            SettlementSite::NearRiver => 25_165_824,
            SettlementSite::Inland => 9_227_469,
        }
    }
}

/// The `k`-th cell around `(ax, az)`, if it is on the grid.
pub fn around_cell(ax: i32, az: i32, size: usize, k: usize) -> (r: Option<usize>)
    requires
        side_ok(size as int),
        inside(size as int, ax as int, az as int),
        k < 8,
    ensures
        match r {
            Some(d) => around(size as int, cell_number(size as int, ax as int, az as int), k as int)
                == Some(d as int) && is_cell(size as int, d as int),
            None => around(size as int, cell_number(size as int, ax as int, az as int), k as int)
                is None,
        },
{
    let nx: i32 = ax + NEIGHBOR_DX[k];
    let nz: i32 = az + NEIGHBOR_DZ[k];
    proof {
        lemma_side(size as int);
        lemma_coords_of_number(size as int, ax as int, az as int);
    }
    if in_bounds(nx, nz, size) {
        proof {
            lemma_coords_of_number(size as int, nx as int, nz as int);
        }
        Some(index_of(nx, nz, size))
    } else {
        None
    }
}

/// The `k`-th cell around `c` carries a river.
pub open spec fn river_around(size: int, rivers: Set<i32>, c: int, k: int) -> bool {
    match around(size, c, k) {
        Some(d) => rivers.contains(d as i32),
        None => false,
    }
}

/// How many of the first `n` cells around `c` carry a river.
pub open spec fn rivers_around(size: int, rivers: Set<i32>, c: int, n: nat) -> int
    decreases n,
{
    if n == 0 {
        0
    } else {
        rivers_around(size, rivers, c, (n - 1) as nat) + if river_around(
            size,
            rivers,
            c,
            n - 1,
        ) {
            1int
        } else {
            0
        }
    }
}

/// A river cell away from the mouth with two or more river cells around it.
pub open spec fn confluence(size: int, rivers: Set<i32>, mouth: Seq<i32>, c: int) -> bool {
    mouth[c] != 0 && rivers.contains(c as i32) && rivers_around(size, rivers, c, 8) >= 2
}

/// The site a cell offers.
pub open spec fn site_of(
    size: int,
    rivers: Set<i32>,
    mouth: Seq<i32>,
    c: int,
) -> SettlementSite {
    if mouth[c] == 0 {
        SettlementSite::RiverMouth
    } else if confluence(size, rivers, mouth, c) {
        SettlementSite::Confluence
    } else if rivers.contains(c as i32) || rivers_around(size, rivers, c, 8) > 0 {
        SettlementSite::NearRiver
    } else {
        SettlementSite::Inland
    }
}

fn count_rivers_around(
    ax: i32,
    az: i32,
    size: usize,
    river_links: &FxHashMap<i32, Vec<Link>>,
) -> (r: u32)
    requires
        side_ok(size as int),
        inside(size as int, ax as int, az as int),
    ensures
        r == rivers_around(
            size as int,
            river_links@.dom(),
            cell_number(size as int, ax as int, az as int),
            8,
        ),
{
    let ghost c = cell_number(size as int, ax as int, az as int);
    let mut n: u32 = 0;
    let mut k: usize = 0;
    while k < 8
        invariant
            k <= 8,
            n <= k,
            side_ok(size as int),
            inside(size as int, ax as int, az as int),
            c == cell_number(size as int, ax as int, az as int),
            n == rivers_around(size as int, river_links@.dom(), c, k as nat),
        decreases 8 - k,
    {
        proof {
            lemma_side(size as int);
        }
        match around_cell(ax, az, size, k) {
            Some(d) => {
                if map_get(river_links, d as i32).is_some() {
                    n += 1;
                }
            },
            None => {},
        }
        k += 1;
    }
    n
}

pub fn touches_river(
    ax: i32,
    az: i32,
    size: usize,
    river_links: &FxHashMap<i32, Vec<Link>>,
) -> (r: bool)
    requires
        side_ok(size as int),
        inside(size as int, ax as int, az as int),
    ensures
        r == (rivers_around(
            size as int,
            river_links@.dom(),
            cell_number(size as int, ax as int, az as int),
            8,
        ) > 0),
{
    count_rivers_around(ax, az, size, river_links) > 0
}

pub fn is_river_confluence(
    ax: i32,
    az: i32,
    size: usize,
    river_links: &FxHashMap<i32, Vec<Link>>,
    mouth_distance: &[i32],
) -> (r: bool)
    requires
        side_ok(size as int),
        inside(size as int, ax as int, az as int),
        mouth_distance@.len() == size * size,
    ensures
        r == confluence(
            size as int,
            river_links@.dom(),
            mouth_distance@,
            cell_number(size as int, ax as int, az as int),
        ),
{
    proof {
        lemma_side(size as int);
        lemma_coords_of_number(size as int, ax as int, az as int);
    }
    let idx: usize = index_of(ax, az, size);
    if mouth_distance[idx] == 0 || map_get(river_links, idx as i32).is_none() {
        return false;
    }
    count_rivers_around(ax, az, size, river_links) >= 2
}

pub fn classify_settlement_site(
    ax: i32,
    az: i32,
    size: usize,
    river_links: &FxHashMap<i32, Vec<Link>>,
    mouth_distance: &[i32],
) -> (r: SettlementSite)
    requires
        side_ok(size as int),
        inside(size as int, ax as int, az as int),
        mouth_distance@.len() == size * size,
    ensures
        r == site_of(
            size as int,
            river_links@.dom(),
            mouth_distance@,
            cell_number(size as int, ax as int, az as int),
        ),
{
    proof {
        lemma_side(size as int);
        lemma_coords_of_number(size as int, ax as int, az as int);
    }
    let idx: usize = index_of(ax, az, size);
    if mouth_distance[idx] == 0 {
        return SettlementSite::RiverMouth;
    }
    if is_river_confluence(ax, az, size, river_links, mouth_distance) {
        return SettlementSite::Confluence;
    }
    if map_get(river_links, idx as i32).is_some() || touches_river(ax, az, size, river_links) {
        return SettlementSite::NearRiver;
    }
    SettlementSite::Inland
}

/// A link that ends in the sea or a lake.
pub open spec fn ends_in_water(l: Link) -> bool {
    l.b.kind == EndpointKind::Ocean || l.b.kind == EndpointKind::Lake
}

/// Some link of the list ends in the sea or a lake.
pub open spec fn mouth_links(links: Seq<Link>) -> bool {
    exists|i: int| 0 <= i < links.len() && ends_in_water(#[trigger] links[i])
}

pub fn cell_is_river_mouth(links: &[Link]) -> (r: bool)
    ensures
        r == mouth_links(links@),
{
    let mut i: usize = 0;
    while i < links.len()
        invariant
            i <= links@.len(),
            forall|j: int| 0 <= j < i ==> !ends_in_water(#[trigger] links@[j]),
        decreases links@.len() - i,
    {
        let l: Link = links[i];
        if l.b.kind == EndpointKind::Ocean || l.b.kind == EndpointKind::Lake {
            return true;
        }
        i += 1;
    }
    false
}

/// A river runs out of cell `c` into the sea or a lake.
pub open spec fn is_mouth(links: Map<i32, Seq<Link>>, c: int) -> bool {
    links.contains_key(c as i32) && mouth_links(links[c as i32])
}

/// The steps from `c` to the nearest river mouth, over land and in any of eight
/// directions, where that is at most `cap`; else -1.
pub open spec fn mouth_steps(
    size: int,
    cells: Seq<i32>,
    links: Map<i32, Seq<Link>>,
    c: int,
    cap: nat,
) -> int
    decreases cap,
{
    if cap == 0 {
        if is_mouth(links, c) {
            0
        } else {
            -1
        }
    } else {
        let nearer = mouth_steps(size, cells, links, c, (cap - 1) as nat);
        if nearer >= 0 {
            nearer
        } else if !wet(cells, c) && (exists|k: int|
            0 <= k < 8 && (#[trigger] around(size, c, k)) is Some && mouth_steps(
                size,
                cells,
                links,
                around(size, c, k)->0,
                (cap - 1) as nat,
            ) >= 0) {
            cap as int
        } else {
            -1
        }
    }
}

/// The `k`-th cell around `c` lies within `cap` steps of a mouth.
pub open spec fn mouth_near(
    size: int,
    cells: Seq<i32>,
    links: Map<i32, Seq<Link>>,
    c: int,
    k: int,
    cap: nat,
) -> bool {
    match around(size, c, k) {
        Some(d) => mouth_steps(size, cells, links, d, cap) >= 0,
        None => false,
    }
}

proof fn lemma_steps_range(
    size: int,
    cells: Seq<i32>,
    links: Map<i32, Seq<Link>>,
    c: int,
    cap: nat,
)
    ensures
        -1 <= mouth_steps(size, cells, links, c, cap) <= cap,
    decreases cap,
{
    if cap > 0 {
        lemma_steps_range(size, cells, links, c, (cap - 1) as nat);
    }
}

/// Some cell around `c` has a distance from 0 to `ring`.
fn near_ring(
    ax: i32,
    az: i32,
    size: usize,
    dist: &Vec<i32>,
    ring: i32,
    Ghost(cells): Ghost<Seq<i32>>,
    Ghost(links): Ghost<Map<i32, Seq<Link>>>,
    Ghost(edge): Ghost<int>,
) -> (r: bool)
    requires
        side_ok(size as int),
        inside(size as int, ax as int, az as int),
        dist@.len() == size * size,
        0 <= ring < 1000,
        forall|c: int|
            is_cell(size as int, c) ==> #[trigger] dist@[c] == mouth_steps(
                size as int,
                cells,
                links,
                c,
                if c < edge {
                    (ring + 1) as nat
                } else {
                    ring as nat
                },
            ),
    ensures
        r == exists|k: int|
            0 <= k < 8 && #[trigger] mouth_near(
                size as int,
                cells,
                links,
                cell_number(size as int, ax as int, az as int),
                k,
                ring as nat,
            ),
{
    let ghost n = size as int;
    let ghost c = cell_number(n, ax as int, az as int);
    let mut k: usize = 0;
    while k < 8
        invariant
            k <= 8,
            n == size,
            side_ok(n),
            inside(n, ax as int, az as int),
            c == cell_number(n, ax as int, az as int),
            dist@.len() == n * n,
            0 <= ring < 1000,
            forall|c: int|
                is_cell(n, c) ==> #[trigger] dist@[c] == mouth_steps(
                    n,
                    cells,
                    links,
                    c,
                    if c < edge {
                        (ring + 1) as nat
                    } else {
                        ring as nat
                    },
                ),
            forall|j: int|
                0 <= j < k ==> !#[trigger] mouth_near(n, cells, links, c, j, ring as nat),
        decreases 8 - k,
    {
        match around_cell(ax, az, size, k) {
            Some(d) => {
                proof {
                    lemma_steps_range(n, cells, links, d as int, ring as nat);
                }
                if dist[d] >= 0 && dist[d] <= ring {
                    assert(mouth_near(n, cells, links, c, k as int, ring as nat));
                    return true;
                }
            },
            None => {},
        }
        assert(!mouth_near(n, cells, links, c, k as int, ring as nat));
        k += 1;
    }
    false
}

/// Takes the distances from mouths one step further out.
fn widen_ring(
    size: usize,
    cells: &[i32],
    dist: &mut Vec<i32>,
    ring: i32,
    Ghost(links): Ghost<Map<i32, Seq<Link>>>,
)
    requires
        side_ok(size as int),
        cells@.len() == size * size,
        forall|c: int| is_cell(size as int, c) ==> cell_valid(#[trigger] cells@[c]),
        0 <= ring < 1000,
        old(dist)@.len() == size * size,
        forall|c: int|
            is_cell(size as int, c) ==> #[trigger] old(dist)@[c] == mouth_steps(
                size as int,
                cells@,
                links,
                c,
                ring as nat,
            ),
    ensures
        final(dist)@.len() == size * size,
        forall|c: int|
            is_cell(size as int, c) ==> #[trigger] final(dist)@[c] == mouth_steps(
                size as int,
                cells@,
                links,
                c,
                (ring + 1) as nat,
            ),
{
    let ghost n = size as int;
    proof {
        lemma_side(n);
    }
    let mut i: usize = 0;
    while i < size * size
        invariant
            n == size,
            side_ok(n),
            0 < size * size <= i32::MAX,
            0 <= i <= n * n,
            cells@.len() == n * n,
            forall|c: int| is_cell(n, c) ==> cell_valid(#[trigger] cells@[c]),
            0 <= ring < 1000,
            dist@.len() == n * n,
            forall|c: int|
                is_cell(n, c) ==> #[trigger] dist@[c] == mouth_steps(
                    n,
                    cells@,
                    links,
                    c,
                    if c < i {
                        (ring + 1) as nat
                    } else {
                        ring as nat
                    },
                ),
        decreases n * n - i,
    {
        let ghost before = dist@;
        proof {
            lemma_cell_coords(n, i as int);
            assert(is_cell(n, i as int));
            assert(cell_valid(cells@[i as int]));
        }
        let ax: i32 = (i % size) as i32;
        let az: i32 = (i / size) as i32;
        let reached: bool = dist[i] < 0 && is_land(biome(cells[i])) && near_ring(
            ax,
            az,
            size,
            dist,
            ring,
            Ghost(cells@),
            Ghost(links),
            Ghost(i as int),
        );
        if reached {
            dist[i] = ring + 1;
        }
        proof {
            assert(cell_number(n, ax as int, az as int) == i);
            lemma_steps_range(n, cells@, links, i as int, ring as nat);
            let wider = mouth_steps(n, cells@, links, i as int, (ring + 1) as nat);
            assert forall|k: int| 0 <= k < 8 implies mouth_near(
                n,
                cells@,
                links,
                i as int,
                k,
                ring as nat,
            ) == ((#[trigger] around(n, i as int, k)) is Some && mouth_steps(
                n,
                cells@,
                links,
                around(n, i as int, k)->0,
                ring as nat,
            ) >= 0) by {}
            assert(before[i as int] >= 0 ==> wider == before[i as int]);
            assert(reached ==> wider == ring + 1);
            assert(!reached && before[i as int] < 0 ==> wider == -1);
        }
        proof {
            assert forall|c: int| is_cell(n, c) implies #[trigger] dist@[c] == mouth_steps(
                n,
                cells@,
                links,
                c,
                if c < i + 1 {
                    (ring + 1) as nat
                } else {
                    ring as nat
                },
            ) by {
                assert(before[c] == mouth_steps(
                    n,
                    cells@,
                    links,
                    c,
                    if c < i {
                        (ring + 1) as nat
                    } else {
                        ring as nat
                    },
                ));
            }
        }
        i += 1;
    }
}

/// The steps from every cell to the nearest river mouth within
/// [`POPULATION_MOUTH_RADIUS`], -1 where there is none.
#[verifier::loop_isolation(false)]
pub fn river_mouth_distances(
    size: usize,
    cells: &[i32],
    river_links: &FxHashMap<i32, Vec<Link>>,
) -> (dist: Vec<i32>)
    requires
        side_ok(size as int),
        cells@.len() == size * size,
        forall|c: int| is_cell(size as int, c) ==> cell_valid(#[trigger] cells@[c]),
    ensures
        dist@.len() == size * size,
        forall|c: int|
            is_cell(size as int, c) ==> #[trigger] dist@[c] == mouth_steps(
                size as int,
                cells@,
                lists(river_links@),
                c,
                2,
            ),
{
    let ghost n = size as int;
    let ghost links = lists(river_links@);
    proof {
        lemma_side(n);
    }
    let count: usize = size * size;
    let mut dist: Vec<i32> = vec![-1i32; count];
    let mut i: usize = 0;
    while i < count
        invariant
            i <= count,
            dist@.len() == n * n,
            forall|c: int|
                is_cell(n, c) ==> #[trigger] dist@[c] == if c < i {
                    mouth_steps(n, cells@, links, c, 0)
                } else {
                    -1
                },
        decreases count - i,
    {
        match map_get(river_links, i as i32) {
            Some(list) => {
                if cell_is_river_mouth(list.as_slice()) {
                    dist[i] = 0;
                }
            },
            None => {},
        }
        i += 1;
    }
    let mut ring: i32 = 0;
    while ring < POPULATION_MOUTH_RADIUS
        invariant
            0 <= ring <= 2,
            dist@.len() == n * n,
            forall|c: int|
                is_cell(n, c) ==> #[trigger] dist@[c] == mouth_steps(
                    n,
                    cells@,
                    links,
                    c,
                    ring as nat,
                ),
        decreases 2 - ring,
    {
        widen_ring(size, cells, &mut dist, ring, Ghost(links));
        ring += 1;
    }
    dist
}

/// How many people a land cell draws: none below the threshold, else one and as
/// many more as the score exceeds the threshold by in fifteenths, up to 15.
pub open spec fn drawn_population(steps: Option<i32>) -> int {
    match steps {
        None => 0,
        Some(t) => clamped(1 + t, 1, 15),
    }
}

fn population_level(steps: Option<i32>) -> (r: i32)
    ensures
        r == drawn_population(steps),
{
    match steps {
        None => 0,
        Some(t) => if t < 0 {
            1
        } else if t > 14 {
            15
        } else {
            1 + t
        },
    }
}

/// A cell with another population, everything else kept.
pub open spec fn with_population(cell: i32, pop: int) -> i32 {
    packed_cell(
        cell_elevation(cell) as int,
        cell_humidity(cell) as int,
        cell_biome(cell),
        cell_relief(cell) as int,
        pop,
    )
}

pub fn repopulated(cell: i32, pop: i32) -> (r: i32)
    requires
        cell_valid(cell),
    ensures
        r == with_population(cell, pop as int),
{
    pack(elevation(cell), humidity(cell), biome(cell), relief(cell), pop)
}

/// Writes the population of every cell: land as its score draws, water none.
///
/// `steps` holds, for each cell, by how many fifteenths its score exceeds the
/// settling threshold, `None` where it does not.
#[verifier::loop_isolation(false)]
pub fn seed_population(
    size: usize,
    cells: &mut Vec<i32>,
    river_links: &FxHashMap<i32, Vec<Link>>,
    mouth_distance: &mut Vec<i32>,
    steps: &[Option<i32>],
)
    requires
        side_ok(size as int),
        old(cells)@.len() == size * size,
        forall|c: int| is_cell(size as int, c) ==> cell_valid(#[trigger] old(cells)@[c]),
        steps@.len() == size * size,
    ensures
        final(mouth_distance)@.len() == size * size,
        forall|c: int|
            is_cell(size as int, c) ==> #[trigger] final(mouth_distance)@[c] == mouth_steps(
                size as int,
                old(cells)@,
                lists(river_links@),
                c,
                2,
            ),
        final(cells)@.len() == size * size,
        forall|c: int|
            is_cell(size as int, c) ==> #[trigger] final(cells)@[c] == with_population(
                old(cells)@[c],
                if wet(old(cells)@, c) {
                    0
                } else {
                    drawn_population(steps@[c])
                },
            ),
{
    let ghost n = size as int;
    *mouth_distance = river_mouth_distances(size, cells.as_slice(), river_links);
    proof {
        lemma_side(n);
    }
    let count: usize = size * size;
    let mut i: usize = 0;
    while i < count
        invariant
            i <= count,
            cells@.len() == n * n,
            forall|c: int|
                is_cell(n, c) ==> #[trigger] cells@[c] == if c < i {
                    with_population(
                        old(cells)@[c],
                        if wet(old(cells)@, c) {
                            0
                        } else {
                            drawn_population(steps@[c])
                        },
                    )
                } else {
                    old(cells)@[c]
                },
        decreases count - i,
    {
        assert(is_cell(n, i as int));
        let cell: i32 = cells[i];
        assert(cell == old(cells)@[i as int] && cell_valid(old(cells)@[i as int]));
        let pop: i32 = if is_land(biome(cell)) {
            population_level(steps[i])
        } else {
            0
        };
        cells[i] = repopulated(cell, pop);
        i += 1;
    }
}

/// The height of a land cell in metres; nothing off the grid or on water.
pub open spec fn land_metres(size: int, cells: Seq<i32>, ax: int, az: int) -> Option<int> {
    if inside(size, ax, az) && !wet(cells, cell_number(size, ax, az)) {
        Some(code_metres(cell_elevation(cells[cell_number(size, ax, az)]) as int))
    } else {
        None
    }
}

/// The rise over two cells from `lo` through `mid` to `hi`, taking twice the rise
/// on one side where the other has no height.
pub open spec fn rise_over(lo: Option<int>, mid: int, hi: Option<int>) -> int {
    match (lo, hi) {
        (Some(l), Some(h)) => h - l,
        (None, Some(h)) => 2 * (h - mid),
        (Some(l), None) => 2 * (mid - l),
        (None, None) => 0,
    }
}

/// The rise in metres over two cells, along both axes.
pub open spec fn rise_at(size: int, cells: Seq<i32>, ax: int, az: int) -> Option<(int, int)> {
    match land_metres(size, cells, ax, az) {
        None => None,
        Some(h) => Some(
            (
                rise_over(
                    land_metres(size, cells, ax - 1, az),
                    h,
                    land_metres(size, cells, ax + 1, az),
                ),
                rise_over(
                    land_metres(size, cells, ax, az - 1),
                    h,
                    land_metres(size, cells, ax, az + 1),
                ),
            ),
        ),
    }
}

/// Ground level enough to build on: over a cell of 1000 metres the slope `s` has
/// `1 / (1 + (s / 0.02)^2)` at least 0.35.
pub open spec fn level_ground(size: int, cells: Seq<i32>, ax: int, az: int) -> bool {
    match rise_at(size, cells, ax, az) {
        None => false,
        Some(g) => 7 * (g.0 * g.0 + g.1 * g.1) <= 20800,
    }
}

fn land_elev_m(ax: i32, az: i32, size: usize, cells: &[i32]) -> (r: Option<i32>)
    requires
        side_ok(size as int),
        cells@.len() == size * size,
        forall|c: int| is_cell(size as int, c) ==> cell_valid(#[trigger] cells@[c]),
    ensures
        match r {
            Some(h) => land_metres(size as int, cells@, ax as int, az as int) == Some(h as int)
                && -80 <= h <= 4000,
            None => land_metres(size as int, cells@, ax as int, az as int) is None,
        },
{
    if !in_bounds(ax, az, size) {
        return None;
    }
    let idx: usize = index_of(ax, az, size);
    assert(cell_valid(cells@[idx as int]));
    let cell: i32 = cells[idx];
    if !is_land(biome(cell)) {
        return None;
    }
    Some(elevation_to_metres(elevation(cell)))
}

fn two_cell_rise(lo: Option<i32>, mid: i32, hi: Option<i32>) -> (r: i32)
    requires
        lo is Some ==> -80 <= lo->0 <= 4000,
        hi is Some ==> -80 <= hi->0 <= 4000,
        -80 <= mid <= 4000,
    ensures
        r == rise_over(
            match lo {
                Some(l) => Some(l as int),
                None => None,
            },
            mid as int,
            match hi {
                Some(h) => Some(h as int),
                None => None,
            },
        ),
        -8160 <= r <= 8160,
{
    match (lo, hi) {
        (Some(l), Some(h)) => h - l,
        (None, Some(h)) => 2 * (h - mid),
        (Some(l), None) => 2 * (mid - l),
        (None, None) => 0,
    }
}

/// The rise in metres over two cells of 1000 metres, along both axes; `None` off
/// the land.
pub fn local_rise(ax: i32, az: i32, size: usize, cells: &[i32]) -> (r: Option<(i32, i32)>)
    requires
        side_ok(size as int),
        cells@.len() == size * size,
        forall|c: int| is_cell(size as int, c) ==> cell_valid(#[trigger] cells@[c]),
    ensures
        match r {
            Some(g) => rise_at(size as int, cells@, ax as int, az as int) == Some(
                (g.0 as int, g.1 as int),
            ) && -8160 <= g.0 <= 8160 && -8160 <= g.1 <= 8160,
            None => rise_at(size as int, cells@, ax as int, az as int) is None,
        },
{
    match land_elev_m(ax, az, size, cells) {
        None => None,
        Some(h) => {
            let gx: i32 = two_cell_rise(
                land_elev_m(ax - 1, az, size, cells),
                h,
                land_elev_m(ax + 1, az, size, cells),
            );
            let gz: i32 = two_cell_rise(
                land_elev_m(ax, az - 1, size, cells),
                h,
                land_elev_m(ax, az + 1, size, cells),
            );
            Some((gx, gz))
        },
    }
}

pub fn cell_is_settlement_flat(ax: i32, az: i32, size: usize, cells: &[i32]) -> (r: bool)
    requires
        side_ok(size as int),
        cells@.len() == size * size,
        forall|c: int| is_cell(size as int, c) ==> cell_valid(#[trigger] cells@[c]),
    ensures
        r == level_ground(size as int, cells@, ax as int, az as int),
{
    match local_rise(ax, az, size, cells) {
        None => false,
        Some(g) => {
            let a: i64 = g.0 as i64;
            let b: i64 = g.1 as i64;
            assert(0 <= a * a <= 66585600) by (nonlinear_arith)
                requires
                    -8160 <= a <= 8160,
            ;
            assert(0 <= b * b <= 66585600) by (nonlinear_arith)
                requires
                    -8160 <= b <= 8160,
            ;
            7 * (a * a + b * b) <= 20800
        },
    }
}

} // verus!
