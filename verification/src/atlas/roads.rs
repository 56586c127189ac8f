//! Road paths stamped into edge ports and links.

use crate::atlas::biomes::Biome;
use crate::atlas::cell_map::{
    list_at, lists, map_get, map_insert, map_keys, map_new, map_remove,
};
use crate::atlas::drainage::wet;
use crate::atlas::features::{
    dir_of, dir_opposite, edge_holder, edge_key, edge_key_of, edge_owner, road_class_number, Dir,
    EndpointKind, Kind, RoadClass, law_edge_owner_of_key,
};
use crate::atlas::grid::{
    cell_number, cell_x, cell_z, in_bounds, index_of, inside, is_cell, side_ok, lemma_cell_coords,
    lemma_coords_of_number, lemma_side,
};
use crate::atlas::lakes::{NEIGHBOR_DX, NEIGHBOR_DZ};
use crate::atlas::pack::{
    biome, cell_biome_id, cell_elevation, cell_valid, code_metres, elevation, elevation_to_metres,
};
use crate::atlas::rivers::{abs_of, delta_dir, dir_from_delta};
use crate::atlas::seeds::{
    decimal_text, feature_hash, feature_hash_of, layer_seed, layer_seed_of, part_views,
};
use crate::atlas::types::{Crossing, Endpoint, Link, Port};
use crate::text::{decimal, push_decimal};
use rustc_hash::FxHashMap;
use vstd::prelude::*;
use vstd::string::*;

verus! {

pub struct RoadGraph {
    pub ports: FxHashMap<i32, Vec<Port>>,
    pub links: FxHashMap<i32, Vec<Link>>,
    pub primary_edges: Vec<(i32, i32)>,
}

/// A road graph as maps and sequences.
pub ghost struct RoadsView {
    pub ports: Map<i32, Seq<Port>>,
    pub links: Map<i32, Seq<Link>>,
    pub primary_edges: Seq<(i32, i32)>,
}

impl View for RoadGraph {
    type V = RoadsView;

    open spec fn view(&self) -> RoadsView {
        RoadsView {
            ports: lists(self.ports@),
            links: lists(self.links@),
            primary_edges: self.primary_edges@,
        }
    }
}

/// The side number of an edge key names a direction.
pub open spec fn key_named(key: i32) -> bool {
    (key >> 24) & 0xF < 4
}

/// A link whose edge ports name edges.
pub open spec fn link_named(l: Link) -> bool {
    &&& l.a.kind == EndpointKind::EdgePort ==> key_named(l.a.ref_id)
    &&& l.b.kind == EndpointKind::EdgePort ==> key_named(l.b.ref_id)
}

impl RoadsView {
    /// Ports carry the number 0 and the edge ports of links name edges.
    pub open spec fn well_formed(self) -> bool {
        &&& forall|key: i32, i: int|
            #![trigger self.ports[key][i]]
            self.ports.contains_key(key) && 0 <= i < self.ports[key].len()
                ==> self.ports[key][i].id == 0
        &&& forall|key: i32, i: int|
            #![trigger self.links[key][i]]
            self.links.contains_key(key) && 0 <= i < self.links[key].len() ==> link_named(
                self.links[key][i],
            )
    }
}

impl RoadGraph {
    pub fn new() -> (r: Self)
        ensures
            r@.ports == Map::<i32, Seq<Port>>::empty(),
            r@.links == Map::<i32, Seq<Link>>::empty(),
            r@.primary_edges == Seq::<(i32, i32)>::empty(),
            r@.well_formed(),
    {
        let r = RoadGraph { ports: map_new(), links: map_new(), primary_edges: Vec::new() };
        assert(r@.ports =~= Map::<i32, Seq<Port>>::empty());
        assert(r@.links =~= Map::<i32, Seq<Link>>::empty());
        r
    }
}

/// The smaller of two ids first.
pub open spec fn ordered_pair(a: i32, b: i32) -> (i32, i32) {
    if a < b {
        (a, b)
    } else {
        (b, a)
    }
}

pub fn pair_key(a: i32, b: i32) -> (r: (i32, i32))
    ensures
        r == ordered_pair(a, b),
{
    if a < b {
        (a, b)
    } else {
        (b, a)
    }
}

/// The `k`-th of the eight cells around `c`, if it is on the grid.
pub open spec fn around(size: int, c: int, k: int) -> Option<int> {
    let nx = cell_x(size, c) + NEIGHBOR_DX[k];
    let nz = cell_z(size, c) + NEIGHBOR_DZ[k];
    if inside(size, nx, nz) {
        Some(cell_number(size, nx, nz))
    } else {
        None
    }
}

/// Dry land without a river that lies around a river cell.
pub open spec fn beside_river(size: int, cells: Seq<i32>, rivers: Set<i32>, c: int) -> bool {
    &&& !rivers.contains(c as i32)
    &&& !wet(cells, c)
    &&& exists|r: i32, k: int|
        #![trigger around(size, r as int, k)]
        rivers.contains(r) && 0 <= k < 8 && around(size, r as int, k) == Some(c)
}

/// Marks the dry cells around rivers.
#[verifier::loop_isolation(false)]
pub fn river_adjacency_mask(
    size: usize,
    cells: &[i32],
    river_links: &FxHashMap<i32, Vec<Link>>,
) -> (mask: Vec<u8>)
    requires
        side_ok(size as int),
        cells@.len() == size * size,
        forall|c: int| is_cell(size as int, c) ==> cell_valid(#[trigger] cells@[c]),
        forall|key: i32| #[trigger] river_links@.contains_key(key) ==> is_cell(size as int, key as int),
    ensures
        mask@.len() == size * size,
        forall|c: int|
            is_cell(size as int, c) ==> (#[trigger] mask@[c] != 0 <==> beside_river(
                size as int,
                cells@,
                river_links@.dom(),
                c,
            )),
        forall|c: int| is_cell(size as int, c) ==> #[trigger] mask@[c] <= 1,
{
    let ghost n = size as int;
    let ghost rivers = river_links@.dom();
    proof {
        lemma_side(n);
    }
    let count: usize = size * size;
    let mut mask: Vec<u8> = vec![0u8; count];
    let keys: Vec<i32> = map_keys(river_links);
    let mut i: usize = 0;
    while i < keys.len()
        invariant
            i <= keys@.len(),
            mask@.len() == n * n,
            forall|c: int| is_cell(n, c) ==> #[trigger] mask@[c] <= 1,
            forall|c: int|
                is_cell(n, c) ==> (#[trigger] mask@[c] != 0 <==> !rivers.contains(c as i32) && !wet(
                    cells@,
                    c,
                ) && exists|j: int, k: int|
                    #![trigger around(n, keys@[j] as int, k)]
                    0 <= j < i && 0 <= k < 8 && around(n, keys@[j] as int, k) == Some(c)),
        decreases keys@.len() - i,
    {
        let cell: i32 = keys[i];
        proof {
            assert(keys@.to_set().contains(cell));
            assert(river_links@.contains_key(cell));
            lemma_cell_coords(n, cell as int);
        }
        let cx: i32 = cell % size as i32;
        let cz: i32 = cell / size as i32;
        let ghost start = mask@;
        let mut k: usize = 0;
        while k < 8
            invariant
                k <= 8,
                mask@.len() == n * n,
                forall|c: int| is_cell(n, c) ==> #[trigger] mask@[c] <= 1,
                forall|c: int|
                    is_cell(n, c) ==> (#[trigger] mask@[c] != 0 <==> start[c] != 0 || (
                    !rivers.contains(c as i32) && !wet(cells@, c) && exists|l: int|
                        0 <= l < k && #[trigger] around(n, cell as int, l) == Some(c))),
            decreases 8 - k,
        {
            let nx: i32 = cx + NEIGHBOR_DX[k];
            let nz: i32 = cz + NEIGHBOR_DZ[k];
            let ghost before = mask@;
            if in_bounds(nx, nz, size) {
                let nb: usize = index_of(nx, nz, size);
                assert(cell_valid(cells@[nb as int]));
                let there: Biome = biome(cells[nb]);
                assert(around(n, cell as int, k as int) == Some(nb as int));
                if map_get(river_links, nb as i32).is_none() && there != Biome::Ocean && there
                    != Biome::Lake {
                    mask.set(nb, 1);
                }
            }
            proof {
                assert forall|c: int| is_cell(n, c) implies (#[trigger] mask@[c] != 0 <==> start[c]
                    != 0 || (!rivers.contains(c as i32) && !wet(cells@, c) && exists|l: int|
                    0 <= l < k + 1 && #[trigger] around(n, cell as int, l) == Some(c))) by {
                    if around(n, cell as int, k as int) == Some(c) {
                    } else if exists|l: int|
                        0 <= l < k + 1 && #[trigger] around(n, cell as int, l) == Some(c) {
                        let l = choose|l: int|
                            0 <= l < k + 1 && #[trigger] around(n, cell as int, l) == Some(c);
                        assert(l < k);
                    }
                    assert(mask@[c] == before[c] || around(n, cell as int, k as int) == Some(c));
                }
            }
            k += 1;
        }
        proof {
            assert forall|c: int| is_cell(n, c) implies (#[trigger] mask@[c] != 0
                <==> !rivers.contains(c as i32) && !wet(cells@, c) && exists|j: int, k: int|
                #![trigger around(n, keys@[j] as int, k)]
                0 <= j < i + 1 && 0 <= k < 8 && around(n, keys@[j] as int, k) == Some(c)) by {
                if start[c] != 0 {
                    let (j, k) = choose|j: int, k: int|
                        #![trigger around(n, keys@[j] as int, k)]
                        0 <= j < i && 0 <= k < 8 && around(n, keys@[j] as int, k) == Some(c);
                    assert(around(n, keys@[j] as int, k) == Some(c));
                }
                if exists|l: int| 0 <= l < 8 && #[trigger] around(n, cell as int, l) == Some(c) {
                    let l = choose|l: int|
                        0 <= l < 8 && #[trigger] around(n, cell as int, l) == Some(c);
                    assert(around(n, keys@[i as int] as int, l) == Some(c));
                }
                if exists|j: int, k: int|
                    #![trigger around(n, keys@[j] as int, k)]
                    0 <= j < i + 1 && 0 <= k < 8 && around(n, keys@[j] as int, k) == Some(c) {
                    let (j, k) = choose|j: int, k: int|
                        #![trigger around(n, keys@[j] as int, k)]
                        0 <= j < i + 1 && 0 <= k < 8 && around(n, keys@[j] as int, k) == Some(c);
                    if j == i {
                        assert(around(n, cell as int, k) == Some(c));
                    } else {
                        assert(0 <= j < i && around(n, keys@[j] as int, k) == Some(c));
                    }
                }
            }
        }
        i += 1;
    }
    proof {
        assert forall|c: int| is_cell(n, c) implies (#[trigger] mask@[c] != 0 <==> beside_river(
            n,
            cells@,
            rivers,
            c,
        )) by {
            if beside_river(n, cells@, rivers, c) {
                let (r, k) = choose|r: i32, k: int|
                    #![trigger around(n, r as int, k)]
                    rivers.contains(r) && 0 <= k < 8 && around(n, r as int, k) == Some(c);
                assert(keys@.to_set().contains(r));
                let j = choose|j: int| 0 <= j < keys@.len() && keys@[j] == r;
                assert(around(n, keys@[j] as int, k) == Some(c));
            }
            if mask@[c] != 0 {
                let (j, k) = choose|j: int, k: int|
                    #![trigger around(n, keys@[j] as int, k)]
                    0 <= j < keys@.len() && 0 <= k < 8 && around(n, keys@[j] as int, k) == Some(c);
                assert(keys@.to_set().contains(keys@[j]));
                assert(around(n, keys@[j] as int, k) == Some(c));
            }
        }
    }
    mask
}

/// How far a point strays from a line that spans `dx` columns and `dz` rows.
#[verifier::opaque]
pub open spec fn line_err(dx: int, dz: int, i: int, j: int) -> int {
    dx - dz - i * dz + j * dx
}

proof fn lemma_line_err(dx: int, dz: int, i: int, j: int)
    ensures
        line_err(dx, dz, 0, 0) == dx - dz,
        line_err(dx, dz, i + 1, j) == line_err(dx, dz, i, j) - dz,
        line_err(dx, dz, i, j + 1) == line_err(dx, dz, i, j) + dx,
        line_err(dx, dz, i + 1, j + 1) == line_err(dx, dz, i, j) - dz + dx,
        0 <= i <= dx < 46340 && 0 <= j <= dz < 46340 ==> -5_000_000_000 < line_err(dx, dz, i, j)
            < 5_000_000_000,
{
    reveal(line_err);
    assert((i + 1) * dz == i * dz + dz) by (nonlinear_arith);
    assert((j + 1) * dx == j * dx + dx) by (nonlinear_arith);
    if 0 <= i <= dx < 46340 && 0 <= j <= dz < 46340 {
        assert(-5_000_000_000 < dx - dz - i * dz + j * dx < 5_000_000_000) by (nonlinear_arith)
            requires
                0 <= i <= dx < 46340,
                0 <= j <= dz < 46340,
        ;
    }
}

/// The point after `at`, a point of a line as steps taken along the row and along
/// the column.
pub open spec fn line_next(dx: int, dz: int, at: (int, int)) -> (int, int) {
    let err = line_err(dx, dz, at.0, at.1);
    (
        if 2 * err > -dz {
            at.0 + 1
        } else {
            at.0
        },
        if 2 * err < dx {
            at.1 + 1
        } else {
            at.1
        },
    )
}

/// The `t`-th point of the line that spans `dx` columns and `dz` rows: each step
/// goes along the row, the column or both, whichever stays nearest to the
/// straight line.
#[verifier::opaque]
pub open spec fn line_point(dx: int, dz: int, t: nat) -> (int, int)
    decreases t,
{
    if t == 0 {
        (0, 0)
    } else {
        line_next(dx, dz, line_point(dx, dz, (t - 1) as nat))
    }
}

/// The cell of the `t`-th point of the line from `(ax0, az0)` to `(ax1, az1)`.
#[verifier::opaque]
pub open spec fn line_cell(size: int, ax0: int, az0: int, ax1: int, az1: int, t: nat) -> int {
    let p = line_point(abs_of(ax1 - ax0), abs_of(az1 - az0), t);
    cell_number(
        size,
        ax0 + (if ax0 < ax1 {
            p.0
        } else {
            -p.0
        }),
        az0 + (if az0 < az1 {
            p.1
        } else {
            -p.1
        }),
    )
}

proof fn lemma_line_step(dx: int, dz: int, t: nat)
    ensures
        line_point(dx, dz, 0) == (0int, 0int),
        line_point(dx, dz, t + 1) == line_next(dx, dz, line_point(dx, dz, t)),
{
    reveal(line_point);
    assert((t + 1 - 1) as nat == t);
}

/// Point `t` is the first that lies at the end of the line.
pub open spec fn line_ends_at(dx: int, dz: int, t: nat) -> bool {
    line_point(dx, dz, t) == (dx, dz) && forall|u: nat|
        u < t ==> #[trigger] line_point(dx, dz, u) != (dx, dz)
}

proof fn lemma_line_point(dx: int, dz: int, i: int, j: int)
    requires
        0 <= i <= dx,
        0 <= j <= dz,
        (i, j) != (dx, dz),
    ensures
        ({
            let q = line_next(dx, dz, (i, j));
            &&& i <= q.0 <= dx
            &&& j <= q.1 <= dz
            &&& q.0 + q.1 > i + j
            &&& q.0 <= i + 1
            &&& q.1 <= j + 1
        }),
{
    reveal(line_err);
    if i == dx {
        assert(2 * (dx - dz - dx * dz + j * dx) <= -2 * dz) by (nonlinear_arith)
            requires
                0 <= j < dz,
                0 <= dx,
        ;
    }
    if j == dz {
        assert(2 * (dx - dz - i * dz + dz * dx) >= 2 * dx) by (nonlinear_arith)
            requires
                0 <= i < dx,
                0 <= dz,
        ;
    }
}

/// The straight line of cells between two places, or no cells where it meets the
/// sea or an end lies off the grid.
pub open spec fn line_result(
    size: int,
    cells: Seq<i32>,
    ax0: int,
    az0: int,
    ax1: int,
    az1: int,
    path: Seq<i32>,
) -> bool {
    let dx = abs_of(ax1 - ax0);
    let dz = abs_of(az1 - az0);
    let ends_on_grid = inside(size, ax0, az0) && inside(size, ax1, az1);
    &&& path.len() > 0 ==> {
        &&& ends_on_grid
        &&& line_ends_at(dx, dz, (path.len() - 1) as nat)
        &&& forall|t: int|
            0 <= t < path.len() ==> {
                &&& #[trigger] path[t] == line_cell(size, ax0, az0, ax1, az1, t as nat)
                &&& is_cell(size, path[t] as int)
                &&& cell_biome_id(cells[path[t] as int]) != 0
            }
        &&& king_path(size, path)
    }
    &&& path.len() == 0 && ends_on_grid ==> exists|t: nat|
        #![trigger line_point(dx, dz, t)]
        (forall|u: nat| u < t ==> #[trigger] line_point(dx, dz, u) != (dx, dz)) && cell_biome_id(
            cells[line_cell(size, ax0, az0, ax1, az1, t)],
        ) == 0
}

/// The straight line of cells between two places. No cells where it meets the
/// sea or an end lies off the grid.
#[verifier::rlimit(60)]
#[verifier::spinoff_prover]
pub fn road_bresenham(size: usize, cells: &[i32], ax0: i32, az0: i32, ax1: i32, az1: i32) -> (path:
    Vec<i32>)
    requires
        side_ok(size as int),
        cells@.len() == size * size,
        forall|c: int| is_cell(size as int, c) ==> cell_valid(#[trigger] cells@[c]),
    ensures
        line_result(
            size as int,
            cells@,
            ax0 as int,
            az0 as int,
            ax1 as int,
            az1 as int,
            path@,
        ),
{
    let ghost n = size as int;
    let mut path: Vec<i32> = Vec::new();
    if !in_bounds(ax0, az0, size) || !in_bounds(ax1, az1, size) {
        return path;
    }
    proof {
        lemma_side(n);
    }
    let dx: i64 = if ax0 < ax1 {
        ax1 as i64 - ax0 as i64
    } else {
        ax0 as i64 - ax1 as i64
    };
    let dz: i64 = if az0 < az1 {
        az1 as i64 - az0 as i64
    } else {
        az0 as i64 - az1 as i64
    };
    let ghost gdx = dx as int;
    let ghost gdz = dz as int;
    let mut i: i64 = 0;
    let mut j: i64 = 0;
    let mut err: i64 = dx - dz;
    let ghost mut t: nat = 0;
    proof {
        lemma_line_err(gdx, gdz, 0, 0);
        lemma_line_step(gdx, gdz, 0);
    }
    loop
        invariant
            n == size,
            side_ok(n),
            n * n <= 2147395600,
            cells@.len() == n * n,
            forall|c: int| is_cell(n, c) ==> cell_valid(#[trigger] cells@[c]),
            inside(n, ax0 as int, az0 as int),
            inside(n, ax1 as int, az1 as int),
            gdx == dx,
            gdz == dz,
            gdx == abs_of(ax1 - ax0),
            gdz == abs_of(az1 - az0),
            0 <= i <= dx < 46340,
            0 <= j <= dz < 46340,
            err == line_err(gdx, gdz, i as int, j as int),
            path@.len() == t,
            line_point(gdx, gdz, t) == (i as int, j as int),
            forall|u: nat| u < t ==> #[trigger] line_point(gdx, gdz, u) != (gdx, gdz),
            forall|u: int|
                0 <= u < t ==> {
                    &&& #[trigger] path@[u] == line_cell(
                        n,
                        ax0 as int,
                        az0 as int,
                        ax1 as int,
                        az1 as int,
                        u as nat,
                    )
                    &&& is_cell(n, path@[u] as int)
                    &&& cell_biome_id(cells@[path@[u] as int]) != 0
                },
            king_path(n, path@),
            t > 0 ==> king_step(
                n,
                path@.last() as int,
                line_cell(n, ax0 as int, az0 as int, ax1 as int, az1 as int, t),
            ),
        decreases dx + dz - i - j,
    {
        let x: i32 = if ax0 < ax1 {
            ax0 + i as i32
        } else {
            ax0 - i as i32
        };
        let z: i32 = if az0 < az1 {
            az0 + j as i32
        } else {
            az0 - j as i32
        };
        let idx: usize = index_of(x, z, size);
        let ghost here = line_cell(n, ax0 as int, az0 as int, ax1 as int, az1 as int, t);
        assert(idx == here) by {
            reveal(line_cell);
        }
        assert(cell_valid(cells@[idx as int]));
        if biome(cells[idx]) == Biome::Ocean {
            assert(line_point(gdx, gdz, t) == (i as int, j as int));
            return Vec::new();
        }
        let ghost before = path@;
        path.push(idx as i32);
        proof {
            assert(path@.last() == here);
            assert forall|u: int| 0 < u < path@.len() implies king_step(
                n,
                path@[u - 1] as int,
                #[trigger] path@[u] as int,
            ) by {
                if u < before.len() {
                    assert(king_step(n, before[u - 1] as int, before[u] as int));
                }
            }
            assert forall|u: int| 0 <= u < path@.len() implies is_cell(n, #[trigger] path@[u] as int) by {
                if u < before.len() {
                    assert(is_cell(n, before[u] as int));
                }
            }
        }
        if i == dx && j == dz {
            return path;
        }
        proof {
            lemma_line_point(gdx, gdz, i as int, j as int);
            lemma_line_err(gdx, gdz, i as int, j as int);
        }
        let e2: i64 = err * 2;
        let ghost old_i = i as int;
        let ghost old_j = j as int;
        if e2 > -dz {
            err -= dz;
            i += 1;
        }
        if e2 < dx {
            err += dx;
            j += 1;
        }
        proof {
            lemma_line_step(gdx, gdz, t);
            t = t + 1;
            assert(line_point(gdx, gdz, t) == (i as int, j as int));
            let next = line_cell(n, ax0 as int, az0 as int, ax1 as int, az1 as int, t);
            let nx = ax0 + (if ax0 < ax1 {
                i as int
            } else {
                -i
            });
            let nz = az0 + (if az0 < az1 {
                j as int
            } else {
                -j
            });
            assert(next == cell_number(n, nx, nz)) by {
                reveal(line_cell);
            }
            assert(here == cell_number(n, x as int, z as int));
            lemma_king_step(n, x as int, z as int, nx, nz);
        }
    }
}

/// `a` and `b` are different cells that touch by an edge or a corner.
#[verifier::opaque]
pub open spec fn king_step(size: int, a: int, b: int) -> bool {
    let dx = cell_x(size, b) - cell_x(size, a);
    let dz = cell_z(size, b) - cell_z(size, a);
    is_cell(size, a) && is_cell(size, b) && -1 <= dx <= 1 && -1 <= dz <= 1 && (dx != 0 || dz != 0)
}

pub proof fn lemma_king_step(size: int, ax: int, az: int, bx: int, bz: int)
    requires
        inside(size, ax, az),
        inside(size, bx, bz),
        -1 <= bx - ax <= 1,
        -1 <= bz - az <= 1,
        bx != ax || bz != az,
    ensures
        king_step(size, cell_number(size, ax, az), cell_number(size, bx, bz)),
{
    reveal(king_step);
    lemma_coords_of_number(size, ax, az);
    lemma_coords_of_number(size, bx, bz);
}

/// Cells each touching the next.
pub open spec fn king_path(size: int, path: Seq<i32>) -> bool {
    &&& forall|i: int| 0 <= i < path.len() ==> is_cell(size, #[trigger] path[i] as int)
    &&& forall|i: int|
        0 < i < path.len() ==> king_step(size, path[i - 1] as int, #[trigger] path[i] as int)
}


/// One visit to the port on side `dir` of the cell at `(ax, az)`.
pub ghost struct RoadVisit {
    pub ax: int,
    pub az: int,
    pub dir: Dir,
    pub class: RoadClass,
    pub z: int,
}

impl RoadVisit {
    pub open spec fn key(self) -> i32 {
        edge_key_of(self.ax, self.az, self.dir)
    }

    /// The edge the visit is to lies on a grid of at most 4096 cells a side.
    pub open spec fn on_grid(self, size: int) -> bool {
        let h = edge_holder(self.ax, self.az, self.dir);
        size <= 4096 && inside(size, h.0, h.1) && i32::MIN < self.ax <= i32::MAX && i32::MIN
            < self.az <= i32::MAX
    }

    /// The name a new port's place along its edge is seeded with.
    pub open spec fn name(self) -> Seq<char> {
        "edge_p_"@ + decimal((self.key() & 0xFFF) as int) + "_"@ + decimal(
            ((self.key() >> 12) & 0xFFF) as int,
        ) + "_"@ + decimal(((self.key() >> 24) & 0xF) as int) + "_0"@
    }

    /// The port that a first visit makes.
    pub open spec fn new_port(self, world_seed: i32) -> Port {
        Port {
            id: 0,
            t_seed: layer_seed_of(world_seed, self.name()),
            kind: Kind::Road,
            feature_class: road_class_number(self.class) as i32,
            flow_sign: 0,
            surface_z: self.z as i32,
            feature_id: feature_hash_of(
                seq![decimal(world_seed as int), "rport"@, decimal(self.key() as int), "0"@],
            ),
        }
    }

    /// The ports of the edge after the visit: where there are any, each takes the
    /// more important class.
    pub open spec fn visit(self, world_seed: i32, ports: Seq<Port>) -> Seq<Port> {
        if ports.len() == 0 {
            seq![self.new_port(world_seed)]
        } else {
            Seq::new(
                ports.len(),
                |i: int|
                    Port {
                        feature_class: if road_class_number(self.class) < ports[i].feature_class {
                            road_class_number(self.class) as i32
                        } else {
                            ports[i].feature_class
                        },
                        ..ports[i]
                    },
            )
        }
    }

    /// All ports after the visit.
    pub open spec fn visit_all(self, world_seed: i32, ports: Map<i32, Seq<Port>>) -> Map<
        i32,
        Seq<Port>,
    > {
        ports.insert(self.key(), self.visit(world_seed, list_at(ports, self.key())))
    }
}

proof fn lemma_visit_key(v: RoadVisit, size: int)
    requires
        v.on_grid(size),
    ensures
        key_named(v.key()),
{
    let h = edge_holder(v.ax, v.az, v.dir);
    law_edge_owner_of_key(h.0 as i32, h.1 as i32, h.2);
}

fn road_port_name(key: i32) -> (r: String)
    requires
        key_named(key),
    ensures
        r@ == "edge_p_"@ + decimal((key & 0xFFF) as int) + "_"@ + decimal(
            ((key >> 12) & 0xFFF) as int,
        ) + "_"@ + decimal(((key >> 24) & 0xF) as int) + "_0"@,
{
    let (ox, oz, side) = edge_owner(key);
    let mut name: String = crate::text::owned("edge_p_");
    push_decimal(&mut name, ox as i64);
    name.append("_");
    push_decimal(&mut name, oz as i64);
    name.append("_");
    push_decimal(&mut name, side.number() as i64);
    name.append("_0");
    name
}

/// Visits the road port on side `dir` of a cell, making it where there is none,
/// and returns one of the edge's ports.
pub fn ensure_road_port(
    world_seed: i32,
    size: usize,
    ax: i32,
    az: i32,
    dir: Dir,
    road_class: RoadClass,
    surface_z: i32,
    ports: &mut FxHashMap<i32, Vec<Port>>,
) -> (r: Port)
    requires
        side_ok(size as int),
        (RoadVisit { ax: ax as int, az: az as int, dir, class: road_class, z: surface_z as int })
            .on_grid(size as int),
    ensures
        ({
            let v = RoadVisit {
                ax: ax as int,
                az: az as int,
                dir,
                class: road_class,
                z: surface_z as int,
            };
            &&& lists(final(ports)@) == v.visit_all(world_seed, lists(old(ports)@))
            &&& v.visit(world_seed, list_at(lists(old(ports)@), v.key())).contains(r)
        }),
{
    let ghost v = RoadVisit {
        ax: ax as int,
        az: az as int,
        dir,
        class: road_class,
        z: surface_z as int,
    };
    proof {
        lemma_visit_key(v, size as int);
    }
    let key: i32 = edge_key(ax, az, dir, size);
    let ghost before = lists(ports@);
    let mut entry: Vec<Port> = match map_remove(ports, key) {
        Some(list) => list,
        None => Vec::new(),
    };
    let ghost entry0 = entry@;
    assert(entry0 == list_at(before, key));
    if entry.len() == 0 {
        let name: String = road_port_name(key);
        let seed_text: String = decimal_text(world_seed as i64);
        let key_text: String = decimal_text(key as i64);
        let parts: [&str; 4] = [seed_text.as_str(), "rport", key_text.as_str(), "0"];
        assert(part_views(parts@) =~= seq![
            decimal(world_seed as int),
            "rport"@,
            decimal(key as int),
            "0"@,
        ]);
        let port = Port {
            id: 0,
            t_seed: layer_seed(world_seed, name.as_str()),
            kind: Kind::Road,
            feature_class: road_class.number(),
            flow_sign: 0,
            surface_z,
            feature_id: feature_hash(&parts),
        };
        entry.push(port);
        assert(entry@ =~= v.visit(world_seed, entry0));
        assert(entry@[0] == port);
        map_insert(ports, key, entry);
        assert(lists(ports@) =~= v.visit_all(world_seed, before));
        return port;
    }
    let class: i32 = road_class.number();
    let mut best_i: usize = 0;
    let mut i: usize = 0;
    while i < entry.len()
        invariant
            i <= entry@.len(),
            entry@.len() == entry0.len(),
            entry0.len() > 0,
            class == road_class_number(road_class),
            v.class == road_class,
            best_i < entry@.len(),
            forall|j: int|
                #![trigger entry@[j]]
                0 <= j < entry@.len() ==> entry@[j] == (if j < i {
                    v.visit(world_seed, entry0)[j]
                } else {
                    entry0[j]
                }),
        decreases entry@.len() - i,
    {
        let mut port: Port = entry[i];
        if port.feature_class > entry[best_i].feature_class {
            best_i = i;
        }
        if class < port.feature_class {
            port.feature_class = class;
        }
        entry.set(i, port);
        i += 1;
    }
    assert(entry@ =~= v.visit(world_seed, entry0));
    let best: Port = entry[best_i];
    assert(entry@[best_i as int] == best);
    let ghost after = entry@;
    map_insert(ports, key, entry);
    assert(lists(ports@) =~= v.visit_all(world_seed, before));
    best
}

/// A link between the same two ends, either way round.
pub open spec fn same_ends(l: Link, new: Link) -> bool {
    (l.a == new.a && l.b == new.b) || (l.a == new.b && l.b == new.a)
}

/// The list holds a link between the same two ends.
pub open spec fn holds_undirected(existing: Seq<Link>, new: Link) -> bool {
    exists|i: int| 0 <= i < existing.len() && same_ends(#[trigger] existing[i], new)
}

pub fn already_has_undirected(existing: &Vec<Link>, new: &Link) -> (r: bool)
    ensures
        r == holds_undirected(existing@, *new),
{
    let mut i: usize = 0;
    while i < existing.len()
        invariant
            i <= existing@.len(),
            forall|j: int| 0 <= j < i ==> !same_ends(#[trigger] existing@[j], *new),
        decreases existing@.len() - i,
    {
        let l: Link = existing[i];
        if (l.a == new.a && l.b == new.b) || (l.a == new.b && l.b == new.a) {
            assert(same_ends(existing@[i as int], *new));
            return true;
        }
        i += 1;
    }
    false
}

/// The side of the cell at `(ax, az)` by which a link between a node and an edge
/// leaves it, if it does.
pub open spec fn exit_side(ax: int, az: int, link: Link) -> Option<Dir> {
    if (link.a.kind == EndpointKind::EdgePort && link.b.kind == EndpointKind::Node) || (link.a.kind
        == EndpointKind::Node && link.b.kind == EndpointKind::EdgePort) {
        let key = if link.a.kind == EndpointKind::EdgePort {
            link.a.ref_id
        } else {
            link.b.ref_id
        };
        let ox = key & 0xFFF;
        let oz = (key >> 12) & 0xFFF;
        let dir = dir_of(((key >> 24) & 0xF) as int);
        if ox == ax && oz == az {
            Some(dir)
        } else if ox == ax - 1 && oz == az && dir == Dir::East {
            Some(Dir::West)
        } else if ox == ax && oz == az - 1 && dir == Dir::South {
            Some(Dir::North)
        } else {
            None
        }
    } else {
        None
    }
}

pub fn plaza_exit_dir(ax: i32, az: i32, link: &Link) -> (r: Option<Dir>)
    requires
        link_named(*link),
        ax > i32::MIN,
        az > i32::MIN,
    ensures
        r == exit_side(ax as int, az as int, *link),
{
    let ep: Endpoint = if link.a.kind == EndpointKind::EdgePort && link.b.kind
        == EndpointKind::Node {
        link.a
    } else if link.a.kind == EndpointKind::Node && link.b.kind == EndpointKind::EdgePort {
        link.b
    } else {
        return None;
    };
    let (ox, oz, dir) = edge_owner(ep.ref_id);
    if ox == ax && oz == az {
        Some(dir)
    } else if ox == ax - 1 && oz == az && dir == Dir::East {
        Some(Dir::West)
    } else if ox == ax && oz == az - 1 && dir == Dir::South {
        Some(Dir::North)
    } else {
        None
    }
}

/// Some link of the list leaves the cell by side `d`.
pub open spec fn exits_by(existing: Seq<Link>, ax: int, az: int, d: Dir) -> bool {
    exists|i: int| 0 <= i < existing.len() && exit_side(ax, az, #[trigger] existing[i]) == Some(d)
}

/// A town is a spur or a through-road: a new exit is allowed on the first side,
/// and then only straight across from it.
pub open spec fn plaza_allows(existing: Seq<Link>, ax: int, az: int, new: Link) -> bool {
    match exit_side(ax, az, new) {
        None => true,
        Some(side) => forall|d: Dir| #[trigger]
            exits_by(existing, ax, az, d) ==> d == dir_opposite(side),
    }
}

fn leaves_by(existing: &Vec<Link>, ax: i32, az: i32, d: Dir) -> (r: bool)
    requires
        ax > i32::MIN,
        az > i32::MIN,
        forall|i: int| 0 <= i < existing@.len() ==> link_named(#[trigger] existing@[i]),
    ensures
        r == exits_by(existing@, ax as int, az as int, d),
{
    let mut i: usize = 0;
    while i < existing.len()
        invariant
            i <= existing@.len(),
            ax > i32::MIN,
            az > i32::MIN,
            forall|j: int| 0 <= j < existing@.len() ==> link_named(#[trigger] existing@[j]),
            forall|j: int|
                0 <= j < i ==> exit_side(ax as int, az as int, #[trigger] existing@[j]) != Some(d),
        decreases existing@.len() - i,
    {
        assert(link_named(existing@[i as int]));
        if let Some(side) = plaza_exit_dir(ax, az, &existing[i]) {
            if side == d {
                assert(exit_side(ax as int, az as int, existing@[i as int]) == Some(d));
                return true;
            }
        }
        i += 1;
    }
    false
}

pub fn plaza_allows_link(existing: &Vec<Link>, ax: i32, az: i32, new: &Link) -> (r: bool)
    requires
        link_named(*new),
        ax > i32::MIN,
        az > i32::MIN,
        forall|i: int| 0 <= i < existing@.len() ==> link_named(#[trigger] existing@[i]),
    ensures
        r == plaza_allows(existing@, ax as int, az as int, *new),
{
    match plaza_exit_dir(ax, az, new) {
        None => true,
        Some(side) => {
            let across: Dir = side.opposite();
            let east: bool = leaves_by(existing, ax, az, Dir::East);
            let south: bool = leaves_by(existing, ax, az, Dir::South);
            let west: bool = leaves_by(existing, ax, az, Dir::West);
            let north: bool = leaves_by(existing, ax, az, Dir::North);
            let r: bool = (!east || across == Dir::East) && (!south || across == Dir::South) && (
            !west || across == Dir::West) && (!north || across == Dir::North);
            proof {
                if r {
                    assert forall|d: Dir| #[trigger]
                        exits_by(existing@, ax as int, az as int, d) implies d
                        == dir_opposite(side) by {
                    }
                }
            }
            r
        },
    }
}

/// A road to be stamped along `path` from node to node.
pub ghost struct RoadStamp {
    pub world_seed: i32,
    pub size: int,
    pub cells: Seq<i32>,
    pub path: Seq<i32>,
    pub class: RoadClass,
    pub node_a: i32,
    pub node_b: i32,
    pub serial: int,
    pub towns: Seq<bool>,
}

impl RoadStamp {
    pub open spec fn well_formed(self) -> bool {
        &&& side_ok(self.size)
        &&& self.size <= 4096
        &&& self.cells.len() == self.size * self.size
        &&& self.towns.len() == self.size * self.size
        &&& king_path(self.size, self.path)
    }

    pub open spec fn feature_id(self) -> i32 {
        feature_hash_of(
            seq![
                decimal(self.world_seed as int),
                "road"@,
                decimal(self.node_a as int),
                decimal(self.node_b as int),
                decimal(self.serial),
            ],
        )
    }

    /// The visit from the `i`-th cell of the path to the port towards the `j`-th.
    pub open spec fn visit(self, i: int, j: int) -> RoadVisit {
        let a = self.path[i] as int;
        let b = self.path[j] as int;
        RoadVisit {
            ax: cell_x(self.size, a),
            az: cell_z(self.size, a),
            dir: delta_dir(
                cell_x(self.size, b) - cell_x(self.size, a),
                cell_z(self.size, b) - cell_z(self.size, a),
            )->0,
            class: self.class,
            z: code_metres(cell_elevation(self.cells[a]) as int),
        }
    }

    /// The link through the `i`-th cell of the path.
    pub open spec fn link(self, i: int) -> Link {
        Link {
            a: if i == 0 {
                Endpoint { kind: EndpointKind::Node, ref_id: self.node_a, port_id: 0 }
            } else {
                Endpoint {
                    kind: EndpointKind::EdgePort,
                    ref_id: self.visit(i, i - 1).key(),
                    port_id: 0,
                }
            },
            b: if i + 1 == self.path.len() {
                Endpoint { kind: EndpointKind::Node, ref_id: self.node_b, port_id: 0 }
            } else {
                Endpoint {
                    kind: EndpointKind::EdgePort,
                    ref_id: self.visit(i, i + 1).key(),
                    port_id: 0,
                }
            },
            kind: Kind::Road,
            feature_class: road_class_number(self.class) as i32,
            feature_id: self.feature_id(),
        }
    }

    /// The ports after the `i`-th cell of the path.
    pub open spec fn ports_after(self, ports: Map<i32, Seq<Port>>, i: int) -> Map<i32, Seq<Port>> {
        let back = if i == 0 {
            ports
        } else {
            self.visit(i, i - 1).visit_all(self.world_seed, ports)
        };
        if i + 1 == self.path.len() {
            back
        } else {
            self.visit(i, i + 1).visit_all(self.world_seed, back)
        }
    }

    /// The links after the `i`-th cell of the path: its link is added unless the
    /// cell has it, or is a town that does not let the road out there.
    pub open spec fn links_after(self, links: Map<i32, Seq<Link>>, i: int) -> Map<i32, Seq<Link>> {
        let cell = self.path[i];
        let slot = list_at(links, cell);
        if holds_undirected(slot, self.link(i)) || (self.towns[cell as int] && !plaza_allows(
            slot,
            cell_x(self.size, cell as int),
            cell_z(self.size, cell as int),
            self.link(i),
        )) {
            links
        } else {
            links.insert(cell, slot.push(self.link(i)))
        }
    }

    /// The graph after the first `n` cells of the path.
    pub open spec fn stamped(self, g: RoadsView, n: nat) -> RoadsView
        decreases n,
    {
        if n == 0 {
            g
        } else {
            let before = self.stamped(g, (n - 1) as nat);
            RoadsView {
                ports: self.ports_after(before.ports, n - 1),
                links: self.links_after(before.links, n - 1),
                primary_edges: before.primary_edges,
            }
        }
    }
}

/// The sides that two touching cells of a path face each other by lie on the
/// grid.
proof fn lemma_visit_on_grid(s: RoadStamp, i: int, j: int)
    requires
        s.well_formed(),
        0 <= i < s.path.len(),
        0 <= j < s.path.len(),
        j == i + 1 || j == i - 1,
    ensures
        s.visit(i, j).on_grid(s.size),
        key_named(s.visit(i, j).key()),
        delta_dir(
            cell_x(s.size, s.path[j] as int) - cell_x(s.size, s.path[i] as int),
            cell_z(s.size, s.path[j] as int) - cell_z(s.size, s.path[i] as int),
        ) is Some,
{
    reveal(king_step);
    if j == i + 1 {
        assert(king_step(s.size, s.path[j - 1] as int, s.path[j] as int));
    } else {
        assert(king_step(s.size, s.path[i - 1] as int, s.path[i] as int));
    }
    lemma_cell_coords(s.size, s.path[i] as int);
    lemma_cell_coords(s.size, s.path[j] as int);
    lemma_visit_key(s.visit(i, j), s.size);
}

proof fn lemma_stamped_well_formed(s: RoadStamp, g: RoadsView, n: nat)
    requires
        s.well_formed(),
        g.well_formed(),
        n <= s.path.len(),
    ensures
        s.stamped(g, n).well_formed(),
    decreases n,
{
    if n > 0 {
        lemma_stamped_well_formed(s, g, (n - 1) as nat);
        let before = s.stamped(g, (n - 1) as nat);
        let after = s.stamped(g, n);
        let i = n - 1;
        if i > 0 {
            lemma_visit_on_grid(s, i, i - 1);
        }
        if i + 1 < s.path.len() {
            lemma_visit_on_grid(s, i, i + 1);
        }
        assert forall|key: i32, x: int|
            #![trigger after.ports[key][x]]
            after.ports.contains_key(key) && 0 <= x
                < after.ports[key].len() implies after.ports[key][x].id == 0 by {
            let back = if i == 0 {
                before.ports
            } else {
                s.visit(i, i - 1).visit_all(s.world_seed, before.ports)
            };
            assert(back.contains_key(key) && x < back[key].len() ==> back[key][x].id == 0) by {
                if before.ports.contains_key(key) && x < before.ports[key].len() {
                    assert(before.ports[key][x].id == 0);
                }
            }
        }
        assert forall|key: i32, x: int|
            #![trigger after.links[key][x]]
            after.links.contains_key(key) && 0 <= x < after.links[key].len() implies link_named(
            after.links[key][x],
        ) by {
            if before.links.contains_key(key) && x < before.links[key].len() {
                assert(link_named(before.links[key][x]));
            }
            assert(link_named(s.link(i)));
        }
    }
}

/// The way from the `i`-th cell of a path towards the `j`-th.
fn facing(size: usize, path: &Vec<i32>, i: usize, j: usize) -> (r: Dir)
    requires
        side_ok(size as int),
        i < path@.len(),
        j < path@.len(),
        is_cell(size as int, path@[i as int] as int),
        is_cell(size as int, path@[j as int] as int),
        delta_dir(
            cell_x(size as int, path@[j as int] as int) - cell_x(size as int, path@[i as int] as int),
            cell_z(size as int, path@[j as int] as int) - cell_z(size as int, path@[i as int] as int),
        ) is Some,
    ensures
        r == delta_dir(
            cell_x(size as int, path@[j as int] as int) - cell_x(size as int, path@[i as int] as int),
            cell_z(size as int, path@[j as int] as int) - cell_z(size as int, path@[i as int] as int),
        )->0,
{
    proof {
        lemma_cell_coords(size as int, path@[i as int] as int);
        lemma_cell_coords(size as int, path@[j as int] as int);
    }
    let n: i32 = size as i32;
    dir_from_delta(path[j] % n - path[i] % n, path[j] / n - path[i] / n).unwrap()
}

/// Stamps a road along a path: visits the ports it crosses and adds its links.
pub fn stamp_road_path(
    world_seed: i32,
    size: usize,
    cells: &[i32],
    path: &Vec<i32>,
    road_class: RoadClass,
    node_a: i32,
    node_b: i32,
    serial: i32,
    towns: &Vec<bool>,
    graph: &mut RoadGraph,
)
    requires
        (RoadStamp {
            world_seed,
            size: size as int,
            cells: cells@,
            path: path@,
            class: road_class,
            node_a,
            node_b,
            serial: serial as int,
            towns: towns@,
        }).well_formed(),
        old(graph)@.well_formed(),
    ensures
        final(graph)@ == (RoadStamp {
            world_seed,
            size: size as int,
            cells: cells@,
            path: path@,
            class: road_class,
            node_a,
            node_b,
            serial: serial as int,
            towns: towns@,
        }).stamped(old(graph)@, path@.len()),
        final(graph)@.well_formed(),
{
    let ghost s = RoadStamp {
        world_seed,
        size: size as int,
        cells: cells@,
        path: path@,
        class: road_class,
        node_a,
        node_b,
        serial: serial as int,
        towns: towns@,
    };
    let ghost g0 = graph@;
    let seed_text: String = decimal_text(world_seed as i64);
    let a_text: String = decimal_text(node_a as i64);
    let b_text: String = decimal_text(node_b as i64);
    let serial_text: String = decimal_text(serial as i64);
    let parts: [&str; 5] = [
        seed_text.as_str(),
        "road",
        a_text.as_str(),
        b_text.as_str(),
        serial_text.as_str(),
    ];
    assert(part_views(parts@) =~= seq![
        decimal(world_seed as int),
        "road"@,
        decimal(node_a as int),
        decimal(node_b as int),
        decimal(serial as int),
    ]);
    let feature_id: i32 = feature_hash(&parts);
    let mut i: usize = 0;
    while i < path.len()
        invariant
            i <= path@.len(),
            s.well_formed(),
            s.world_seed == world_seed,
            s.size == size,
            s.cells == cells@,
            s.path == path@,
            s.class == road_class,
            s.node_a == node_a,
            s.node_b == node_b,
            s.towns == towns@,
            feature_id == s.feature_id(),
            g0.well_formed(),
            graph@ == s.stamped(g0, i as nat),
        decreases path@.len() - i,
    {
        let ghost before = graph@;
        let ghost ii = i as int;
        proof {
            lemma_stamped_well_formed(s, g0, i as nat);
            lemma_stamped_well_formed(s, g0, (i + 1) as nat);
            assert(is_cell(s.size, path@[ii] as int));
            lemma_cell_coords(s.size, path@[ii] as int);
            if i > 0 {
                lemma_visit_on_grid(s, ii, ii - 1);
                assert(is_cell(s.size, path@[ii - 1] as int));
            }
            if i + 1 < path@.len() {
                lemma_visit_on_grid(s, ii, ii + 1);
                assert(is_cell(s.size, path@[ii + 1] as int));
            }
        }
        let cell: i32 = path[i];
        let ax: i32 = cell % size as i32;
        let az: i32 = cell / size as i32;
        let surface_z: i32 = elevation_to_metres(elevation(cells[cell as usize]));
        let ea: Endpoint = if i == 0 {
            Endpoint::node(node_a)
        } else {
            let back: Dir = facing(size, path, i, i - 1);
            let _port: Port = ensure_road_port(
                world_seed,
                size,
                ax,
                az,
                back,
                road_class,
                surface_z,
                &mut graph.ports,
            );
            Endpoint::edge_port(edge_key(ax, az, back, size), 0)
        };
        let eb: Endpoint = if i + 1 == path.len() {
            Endpoint::node(node_b)
        } else {
            let forward: Dir = facing(size, path, i, i + 1);
            let _port: Port = ensure_road_port(
                world_seed,
                size,
                ax,
                az,
                forward,
                road_class,
                surface_z,
                &mut graph.ports,
            );
            Endpoint::edge_port(edge_key(ax, az, forward, size), 0)
        };
        assert(lists(graph.ports@) == s.ports_after(before.ports, ii));
        let link = Link {
            a: ea,
            b: eb,
            kind: Kind::Road,
            feature_class: road_class.number(),
            feature_id,
        };
        assert(link == s.link(ii));
        let mut slot: Vec<Link> = match map_remove(&mut graph.links, cell) {
            Some(list) => list,
            None => Vec::new(),
        };
        let ghost slot0 = slot@;
        proof {
            assert(slot0 == list_at(before.links, cell));
            assert forall|x: int| 0 <= x < slot0.len() implies link_named(#[trigger] slot0[x]) by {
                assert(link_named(before.links[cell][x]));
            }
            assert(link_named(link));
        }
        if !already_has_undirected(&slot, &link) && (!towns[cell as usize] || plaza_allows_link(
            &slot,
            ax,
            az,
            &link,
        )) {
            slot.push(link);
        } else {
            proof {
                if slot0.len() == 0 {
                    assert(!holds_undirected(slot0, link));
                    assert(plaza_allows(slot0, ax as int, az as int, link)) by {
                        assert forall|d: Dir| #[trigger]
                            exits_by(slot0, ax as int, az as int, d) implies false by {
                        }
                    }
                }
                assert(slot0.len() > 0);
            }
        }
        let ghost slot1 = slot@;
        map_insert(&mut graph.links, cell, slot);
        proof {
            assert(lists(graph.links@) =~= s.links_after(before.links, ii));
            assert(graph@ == s.stamped(g0, (i + 1) as nat));
        }
        i += 1;
    }
    proof {
        lemma_stamped_well_formed(s, g0, path@.len());
    }
}

/// The crossing of the first road and the first river of a cell.
pub open spec fn crossing_at(id: int, cell: i32, river: Link, road: Link) -> Crossing {
    Crossing {
        id: id as i32,
        cell,
        river_id: river.feature_id,
        road_id: road.feature_id,
        river_class: river.feature_class,
        road_class: road.feature_class,
    }
}

/// Lists the cells that both a river and a road run through, in no stated order.
pub fn find_crossings(
    river_links: &FxHashMap<i32, Vec<Link>>,
    road_links: &FxHashMap<i32, Vec<Link>>,
) -> (crossings: Vec<Crossing>)
    ensures
        forall|i: int|
            0 <= i < crossings@.len() ==> {
                let cell = (#[trigger] crossings@[i]).cell;
                &&& list_at(lists(river_links@), cell).len() > 0
                &&& list_at(lists(road_links@), cell).len() > 0
                &&& crossings@[i] == crossing_at(
                    i,
                    cell,
                    list_at(lists(river_links@), cell)[0],
                    list_at(lists(road_links@), cell)[0],
                )
            },
        forall|i: int, j: int|
            0 <= i < j < crossings@.len() ==> (#[trigger] crossings@[i]).cell != (
            #[trigger] crossings@[j]).cell,
        forall|cell: i32|
            list_at(lists(river_links@), cell).len() > 0 && #[trigger] list_at(
                lists(road_links@),
                cell,
            ).len() > 0 ==> exists|i: int|
                0 <= i < crossings@.len() && (#[trigger] crossings@[i]).cell == cell,
{
    let ghost rivers = lists(river_links@);
    let ghost roads = lists(road_links@);
    let mut crossings: Vec<Crossing> = Vec::new();
    let keys: Vec<i32> = map_keys(road_links);
    let mut k: usize = 0;
    while k < keys.len()
        invariant
            k <= keys@.len(),
            rivers == lists(river_links@),
            roads == lists(road_links@),
            keys@.no_duplicates(),
            keys@.to_set() == road_links@.dom(),
            crossings@.len() <= k,
            forall|i: int|
                0 <= i < crossings@.len() ==> {
                    let cell = (#[trigger] crossings@[i]).cell;
                    &&& list_at(rivers, cell).len() > 0
                    &&& list_at(roads, cell).len() > 0
                    &&& crossings@[i] == crossing_at(
                        i,
                        cell,
                        list_at(rivers, cell)[0],
                        list_at(roads, cell)[0],
                    )
                    &&& keys@.take(k as int).contains(cell)
                },
            forall|i: int, j: int|
                0 <= i < j < crossings@.len() ==> (#[trigger] crossings@[i]).cell != (
                #[trigger] crossings@[j]).cell,
            forall|x: int|
                0 <= x < k && list_at(rivers, #[trigger] keys@[x]).len() > 0 && list_at(
                    roads,
                    keys@[x],
                ).len() > 0 ==> exists|i: int|
                    0 <= i < crossings@.len() && (#[trigger] crossings@[i]).cell == keys@[x],
        decreases keys@.len() - k,
    {
        let cell: i32 = keys[k];
        let ghost before = crossings@;
        proof {
            assert(keys@.to_set().contains(cell));
            assert(keys@.take(k + 1) =~= keys@.take(k as int).push(cell));
            assert forall|i: int| 0 <= i < before.len() implies keys@.take(k + 1).contains(
                (#[trigger] before[i]).cell,
            ) && before[i].cell != cell by {
                let x = choose|x: int|
                    0 <= x < k && keys@.take(k as int)[x] == before[i].cell;
                assert(keys@.take(k + 1)[x] == before[i].cell);
                assert(keys@[x] != keys@[k as int]);
            }
            assert(keys@.take(k + 1)[k as int] == cell);
        }
        match map_get(river_links, cell) {
            Some(river_list) => match map_get(road_links, cell) {
                Some(road_list) => {
                    if road_list.len() > 0 && river_list.len() > 0 {
                        let road: Link = road_list[0];
                        let river: Link = river_list[0];
                        let id: i32 = crossings.len() as i32;
                        crossings.push(
                            Crossing {
                                id,
                                cell,
                                river_id: river.feature_id,
                                road_id: road.feature_id,
                                river_class: river.feature_class,
                                road_class: road.feature_class,
                            },
                        );
                        assert(crossings@[before.len() as int].cell == cell);
                    }
                },
                None => {},
            },
            None => {},
        }
        proof {
            assert forall|x: int|
                0 <= x < k + 1 && list_at(rivers, #[trigger] keys@[x]).len() > 0 && list_at(
                    roads,
                    keys@[x],
                ).len() > 0 implies exists|i: int|
                0 <= i < crossings@.len() && (#[trigger] crossings@[i]).cell == keys@[x] by {
                if x < k {
                    let i = choose|i: int|
                        0 <= i < before.len() && (#[trigger] before[i]).cell == keys@[x];
                    assert(crossings@[i].cell == keys@[x]);
                }
            }
        }
        k += 1;
    }
    proof {
        assert forall|cell: i32|
            list_at(rivers, cell).len() > 0 && #[trigger] list_at(roads, cell).len()
                > 0 implies exists|i: int|
            0 <= i < crossings@.len() && (#[trigger] crossings@[i]).cell == cell by {
            assert(road_links@.contains_key(cell));
            assert(keys@.to_set().contains(cell));
            let x = choose|x: int| 0 <= x < keys@.len() && keys@[x] == cell;
            assert(list_at(rivers, keys@[x]).len() > 0);
        }
    }
    crossings
}

} // verus!
