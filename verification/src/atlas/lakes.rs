//! Atlas lake basins with spill rims.

use crate::atlas::grid::{
    cell_list, cell_number, cell_x, cell_z, in_bounds, index_of, inside, is_cell, neighbor,
    side_ok, step, lemma_cell_coords, lemma_distinct_len, lemma_side, lemma_step,
};
use crate::atlas::pack::{clamp_i, clamped, code_metres, elevation_to_metres};
use crate::atlas::types::Lake;
use vstd::prelude::*;

verus! {

pub const LAKE_MIN_CELLS: usize = 6;

pub const LAKE_MAX_CELLS_FULL: usize = 450;

/// Column steps to the eight cells around a cell, clockwise from the east.
pub const NEIGHBOR_DX: [i32; 8] = [1, 1, 0, -1, -1, -1, 0, 1];

/// Row steps to the eight cells around a cell, clockwise from the east.
pub const NEIGHBOR_DZ: [i32; 8] = [0, 1, 1, 1, 0, -1, -1, -1];

pub struct LakeScratch {
    pub lakes: Vec<Lake>,
    pub lake_id: Vec<i32>,
}

impl LakeScratch {
    /// Lakes are numbered by their place in the list, share no cell, and every
    /// cell names the lake that lists it.
    pub open spec fn well_formed(&self, size: int) -> bool {
        &&& self.lake_id@.len() == size * size
        &&& forall|i: int|
            #![trigger self.lakes@[i]]
            0 <= i < self.lakes@.len() ==> {
                &&& self.lakes@[i].id == i
                &&& self.lakes@[i].cells@.len() > 0
                &&& cell_list(size, self.lakes@[i].cells@)
            }
        &&& forall|i: int, j: int|
            #![trigger self.lakes@[i].cells@[j]]
            0 <= i < self.lakes@.len() && 0 <= j < self.lakes@[i].cells@.len()
                ==> self.lake_id@[self.lakes@[i].cells@[j] as int] == i
        &&& forall|c: int|
            is_cell(size, c) && #[trigger] self.lake_id@[c] >= 0 ==> {
                &&& self.lake_id@[c] < self.lakes@.len()
                &&& self.lakes@[self.lake_id@[c] as int].cells@.contains(c as i32)
            }
    }

    pub fn new(count: usize) -> (r: Self)
        ensures
            r.lakes@.len() == 0,
            r.lake_id@ == Seq::new(count as nat, |i: int| -1i32),
            forall|size: int| size * size == count ==> #[trigger] r.well_formed(size),
    {
        let r = LakeScratch { lakes: Vec::new(), lake_id: vec![-1; count] };
        assert(r.lake_id@ =~= Seq::new(count as nat, |i: int| -1i32));
        r
    }
}

/// Most cells a lake may cover on a continent of the given side.
pub open spec fn lake_cap(size: int) -> int {
    clamped(size * size / 90, 48, 450)
}

pub fn lake_max_cells(size: usize) -> (r: usize)
    requires
        side_ok(size as int),
    ensures
        r == lake_cap(size as int),
{
    proof {
        lemma_side(size as int);
    }
    let share: usize = size * size / 90;
    if share < 48 {
        48
    } else if share > LAKE_MAX_CELLS_FULL {
        LAKE_MAX_CELLS_FULL
    } else {
        share
    }
}

/// 1 where the `k`-th cell around `(ax, az)` is land no higher than it, else 0.
pub open spec fn low_neighbor(
    size: int,
    land: Seq<u8>,
    elev: Seq<u8>,
    ax: int,
    az: int,
    k: int,
) -> int {
    let nx = ax + NEIGHBOR_DX[k];
    let nz = az + NEIGHBOR_DZ[k];
    if inside(size, nx, nz) && land[cell_number(size, nx, nz)] != 0 && elev[cell_number(size, nx, nz)]
        <= elev[cell_number(size, ax, az)] {
        1
    } else {
        0
    }
}

/// How many of the first `n` cells around `(ax, az)` are land no higher than it.
pub open spec fn low_neighbors(
    size: int,
    land: Seq<u8>,
    elev: Seq<u8>,
    ax: int,
    az: int,
    n: nat,
) -> int
    decreases n,
{
    if n == 0 {
        0
    } else {
        low_neighbors(size, land, elev, ax, az, (n - 1) as nat) + low_neighbor(
            size,
            land,
            elev,
            ax,
            az,
            n - 1,
        )
    }
}

/// At most two of the eight cells around are land no higher than this one.
pub fn is_local_low(ax: i32, az: i32, size: usize, elev_code: &[u8], land: &[u8]) -> (r: bool)
    requires
        side_ok(size as int),
        inside(size as int, ax as int, az as int),
        elev_code@.len() == size * size,
        land@.len() == size * size,
    ensures
        r == (low_neighbors(size as int, land@, elev_code@, ax as int, az as int, 8) <= 2),
{
    let e: u8 = elev_code[index_of(ax, az, size)];
    let mut lower_or_eq: i32 = 0;
    let mut k: usize = 0;
    while k < 8
        invariant
            k <= 8,
            side_ok(size as int),
            inside(size as int, ax as int, az as int),
            elev_code@.len() == size * size,
            land@.len() == size * size,
            e == elev_code@[cell_number(size as int, ax as int, az as int)],
            0 <= lower_or_eq <= k,
            lower_or_eq == low_neighbors(
                size as int,
                land@,
                elev_code@,
                ax as int,
                az as int,
                k as nat,
            ),
        decreases 8 - k,
    {
        let nx: i32 = ax + NEIGHBOR_DX[k];
        let nz: i32 = az + NEIGHBOR_DZ[k];
        if in_bounds(nx, nz, size) {
            let nb: usize = index_of(nx, nz, size);
            if land[nb] != 0 && elev_code[nb] <= e {
                lower_or_eq += 1;
            }
        }
        k += 1;
    }
    lower_or_eq <= 2
}

/// The neighbour on side `k` of the `i`-th listed cell is an open one.
pub open spec fn hit(size: int, cells: Seq<i32>, open: Seq<bool>, i: int, k: int) -> bool {
    &&& 0 <= i < cells.len()
    &&& 0 <= k < 4
    &&& step(size, cells[i] as int, k) is Some
    &&& open[step(size, cells[i] as int, k)->0]
}

/// Elevation of the neighbour on side `k` of the `i`-th listed cell.
pub open spec fn hit_elev(size: int, cells: Seq<i32>, elev: Seq<u8>, i: int, k: int) -> u8 {
    elev[step(size, cells[i] as int, k)->0]
}

/// The lowest open neighbour of the listed cells; of equals, the first in the
/// order of the list and then of the sides.
pub open spec fn lowest_hit(
    size: int,
    cells: Seq<i32>,
    open: Seq<bool>,
    elev: Seq<u8>,
    i: int,
    k: int,
) -> bool {
    &&& hit(size, cells, open, i, k)
    &&& forall|j: int, l: int|
        #![trigger hit(size, cells, open, j, l)]
        hit(size, cells, open, j, l) ==> {
            &&& hit_elev(size, cells, elev, i, k) <= hit_elev(size, cells, elev, j, l)
            &&& (j < i || (j == i && l < k)) ==> hit_elev(size, cells, elev, i, k) < hit_elev(
                size,
                cells,
                elev,
                j,
                l,
            )
        }
}

/// No neighbour of the listed cells is open.
pub open spec fn no_hit(size: int, cells: Seq<i32>, open: Seq<bool>) -> bool {
    forall|j: int, l: int| !#[trigger] hit(size, cells, open, j, l)
}

/// Finds the lowest open neighbour of the listed cells: its place in the list
/// and its side.
pub fn lowest_around(size: usize, cells: &Vec<i32>, open: &Vec<bool>, elev: &[u8]) -> (r: Option<
    (usize, usize),
>)
    requires
        side_ok(size as int),
        open@.len() == size * size,
        elev@.len() == size * size,
        forall|i: int| 0 <= i < cells@.len() ==> is_cell(size as int, #[trigger] cells@[i] as int),
    ensures
        match r {
            Some((i, k)) => lowest_hit(size as int, cells@, open@, elev@, i as int, k as int),
            None => no_hit(size as int, cells@, open@),
        },
{
    let ghost n = size as int;
    let mut best: Option<(usize, usize)> = None;
    let mut best_e: u8 = 0;
    let mut i: usize = 0;
    while i < cells.len()
        invariant
            i <= cells@.len(),
            n == size,
            side_ok(n),
            open@.len() == n * n,
            elev@.len() == n * n,
            forall|j: int| 0 <= j < cells@.len() ==> is_cell(n, #[trigger] cells@[j] as int),
            match best {
                Some((bi, bk)) => {
                    &&& bi < i
                    &&& hit(n, cells@, open@, bi as int, bk as int)
                    &&& best_e == hit_elev(n, cells@, elev@, bi as int, bk as int)
                    &&& forall|j: int, l: int|
                        #![trigger hit(n, cells@, open@, j, l)]
                        j < i && hit(n, cells@, open@, j, l) ==> {
                            &&& best_e <= hit_elev(n, cells@, elev@, j, l)
                            &&& (j < bi || (j == bi && l < bk)) ==> best_e < hit_elev(
                                n,
                                cells@,
                                elev@,
                                j,
                                l,
                            )
                        }
                },
                None => forall|j: int, l: int| j < i ==> !#[trigger] hit(n, cells@, open@, j, l),
            },
        decreases cells@.len() - i,
    {
        let cell: i32 = cells[i];
        assert(is_cell(n, cells@[i as int] as int));
        let mut k: usize = 0;
        while k < 4
            invariant
                k <= 4,
                i < cells@.len(),
                n == size,
                side_ok(n),
                cell == cells@[i as int],
                is_cell(n, cell as int),
                open@.len() == n * n,
                elev@.len() == n * n,
                match best {
                    Some((bi, bk)) => {
                        &&& bi < i || (bi == i && bk < k)
                        &&& hit(n, cells@, open@, bi as int, bk as int)
                        &&& best_e == hit_elev(n, cells@, elev@, bi as int, bk as int)
                        &&& forall|j: int, l: int|
                            #![trigger hit(n, cells@, open@, j, l)]
                            (j < i || (j == i && l < k)) && hit(n, cells@, open@, j, l) ==> {
                                &&& best_e <= hit_elev(n, cells@, elev@, j, l)
                                &&& (j < bi || (j == bi && l < bk)) ==> best_e < hit_elev(
                                    n,
                                    cells@,
                                    elev@,
                                    j,
                                    l,
                                )
                            }
                    },
                    None => forall|j: int, l: int|
                        (j < i || (j == i && l < k)) ==> !#[trigger] hit(n, cells@, open@, j, l),
                },
            decreases 4 - k,
        {
            let ghost best_before = best;
            let ghost e_before = best_e;
            let around: Option<usize> = neighbor(size, cell as usize, k);
            assert(hit(n, cells@, open@, i as int, k as int) == (around is Some
                && open@[around->0 as int]));
            if let Some(nb) = around {
                if open[nb] {
                    let ne: u8 = elev[nb];
                    assert(ne == hit_elev(n, cells@, elev@, i as int, k as int));
                    if best.is_none() || ne < best_e {
                        best_e = ne;
                        best = Some((i, k));
                    }
                }
            }
            proof {
                assert forall|j: int, l: int|
                    #![trigger hit(n, cells@, open@, j, l)]
                    (j < i || (j == i && l < k + 1)) && hit(n, cells@, open@, j, l) implies {
                    &&& best is Some
                    &&& best_e <= hit_elev(n, cells@, elev@, j, l)
                    &&& (j < (best->0).0 || (j == (best->0).0 && l < (best->0).1)) ==> best_e < hit_elev(
                        n,
                        cells@,
                        elev@,
                        j,
                        l,
                    )
                } by {
                    if j < i || l < k {
                        assert(best_before is Some);
                        assert(e_before <= hit_elev(n, cells@, elev@, j, l));
                    }
                }
            }
            k += 1;
        }
        i += 1;
    }
    best
}

/// A cell a lake may grow into: dry land, outside the basin, not above the cap.
pub open spec fn growth_cell(
    land: Seq<u8>,
    elev: Seq<u8>,
    lake_id: Seq<i32>,
    max_elev: int,
    basin: Seq<i32>,
    c: int,
) -> bool {
    land[c] != 0 && lake_id[c] < 0 && elev[c] <= max_elev && !basin.contains(c as i32)
}

/// The marks of all growth cells.
pub open spec fn growth_mask(
    size: int,
    land: Seq<u8>,
    elev: Seq<u8>,
    lake_id: Seq<i32>,
    max_elev: int,
    basin: Seq<i32>,
) -> Seq<bool> {
    Seq::new(
        (size * size) as nat,
        |c: int| growth_cell(land, elev, lake_id, max_elev, basin, c),
    )
}

/// `next` is the lowest growth cell beside the basin, the first of equals.
pub open spec fn grows_by(
    size: int,
    land: Seq<u8>,
    elev: Seq<u8>,
    lake_id: Seq<i32>,
    max_elev: int,
    basin: Seq<i32>,
    next: i32,
) -> bool {
    let open = growth_mask(size, land, elev, lake_id, max_elev, basin);
    exists|i: int, k: int|
        #[trigger] lowest_hit(size, basin, open, elev, i, k) && step(size, basin[i] as int, k)
            == Some(next as int)
}

/// Grows a basin by the lowest dry cell beside it until it has `target` cells or
/// nothing up to `max_elev` is left beside it.
#[verifier::loop_isolation(false)]
pub fn grow_lake_basin(
    basin: &mut Vec<i32>,
    target: usize,
    size: usize,
    land: &[u8],
    elev_code: &[u8],
    lake_id: &[i32],
    max_elev: i32,
)
    requires
        side_ok(size as int),
        cell_list(size as int, old(basin)@),
        land@.len() == size * size,
        elev_code@.len() == size * size,
        lake_id@.len() == size * size,
    ensures
        cell_list(size as int, final(basin)@),
        old(basin)@.len() <= final(basin)@.len(),
        final(basin)@.take(old(basin)@.len() as int) == old(basin)@,
        forall|i: int|
            #![trigger final(basin)@[i]]
            old(basin)@.len() <= i < final(basin)@.len() ==> grows_by(
                size as int,
                land@,
                elev_code@,
                lake_id@,
                max_elev as int,
                final(basin)@.take(i),
                final(basin)@[i],
            ),
        forall|i: int|
            old(basin)@.len() <= i < final(basin)@.len() ==> land@[#[trigger] final(basin)@[i] as int] != 0 && lake_id@[final(basin)@[i] as int] < 0,
        final(basin)@.len() <= target || final(basin)@ == old(basin)@,
        final(basin)@.len() >= target || no_hit(
            size as int,
            final(basin)@,
            growth_mask(
                size as int,
                land@,
                elev_code@,
                lake_id@,
                max_elev as int,
                final(basin)@,
            ),
        ),
{
    let ghost n = size as int;
    let ghost basin0 = basin@;
    proof {
        lemma_side(n);
    }
    let count: usize = size * size;
    let mut open: Vec<bool> = Vec::new();
    let mut c: usize = 0;
    while c < count
        invariant
            c <= count,
            count == n * n,
            land@.len() == n * n,
            elev_code@.len() == n * n,
            lake_id@.len() == n * n,
            open@.len() == c,
            forall|d: int|
                0 <= d < c ==> #[trigger] open@[d] == (land@[d] != 0 && lake_id@[d] < 0
                    && elev_code@[d] <= max_elev),
        decreases count - c,
    {
        open.push(land[c] != 0 && lake_id[c] < 0 && elev_code[c] as i32 <= max_elev);
        c += 1;
    }
    let mut b: usize = 0;
    while b < basin.len()
        invariant
            b <= basin@.len(),
            basin@ == basin0,
            count == n * n,
            open@.len() == n * n,
            cell_list(n, basin@),
            forall|d: int|
                0 <= d < count ==> #[trigger] open@[d] == (land@[d] != 0 && lake_id@[d] < 0
                    && elev_code@[d] <= max_elev && !basin@.take(b as int).contains(d as i32)),
        decreases basin@.len() - b,
    {
        assert(is_cell(n, basin@[b as int] as int));
        let cell: usize = basin[b] as usize;
        let ghost before = open@;
        open.set(cell, false);
        proof {
            let now = basin@.take(b + 1);
            let then = basin@.take(b as int);
            assert forall|d: int| 0 <= d < count implies #[trigger] open@[d] == (land@[d] != 0
                && lake_id@[d] < 0 && elev_code@[d] <= max_elev && !now.contains(d as i32)) by {
                assert(before[d] == (land@[d] != 0 && lake_id@[d] < 0 && elev_code@[d] <= max_elev
                    && !then.contains(d as i32)));
                if d == cell {
                    assert(now[b as int] == d as i32);
                } else {
                    if now.contains(d as i32) {
                        let j = choose|j: int| 0 <= j < now.len() && now[j] == d as i32;
                        assert(then[j] == d as i32);
                    }
                    if then.contains(d as i32) {
                        let j = choose|j: int| 0 <= j < then.len() && then[j] == d as i32;
                        assert(now[j] == d as i32);
                    }
                }
            }
        }
        b += 1;
    }
    proof {
        assert(basin@.take(basin@.len() as int) =~= basin@);
        assert(open@ =~= growth_mask(n, land@, elev_code@, lake_id@, max_elev as int, basin@));
    }
    while basin.len() < target
        invariant
            n == size,
            side_ok(n),
            n * n <= 2147395600,
            land@.len() == n * n,
            elev_code@.len() == n * n,
            lake_id@.len() == n * n,
            cell_list(n, basin@),
            basin0.len() <= basin@.len(),
            basin@.take(basin0.len() as int) =~= basin0,
            basin@.len() <= target || basin@ == basin0,
            open@ == growth_mask(n, land@, elev_code@, lake_id@, max_elev as int, basin@),
            forall|i: int|
                #![trigger basin@[i]]
                basin0.len() <= i < basin@.len() ==> grows_by(
                    n,
                    land@,
                    elev_code@,
                    lake_id@,
                    max_elev as int,
                    basin@.take(i),
                    basin@[i],
                ),
            forall|i: int|
                basin0.len() <= i < basin@.len() ==> land@[#[trigger] basin@[i] as int] != 0
                    && lake_id@[basin@[i] as int] < 0,
        decreases target - basin@.len(),
    {
        match lowest_around(size, basin, &open, elev_code) {
            Some((i, k)) => {
                let ghost before = basin@;
                let ghost open_before = open@;
                assert(hit(n, basin@, open@, i as int, k as int));
                assert(is_cell(n, basin@[i as int] as int));
                let at: usize = basin[i] as usize;
                proof {
                    lemma_step(n, at as int, k as int);
                }
                let nb: usize = neighbor(size, at, k).unwrap();
                proof {
                    assert(open@[nb as int]);
                    assert(!basin@.contains(nb as i32));
                    assert(lowest_hit(n, basin@, open@, elev_code@, i as int, k as int));
                }
                basin.push(nb as i32);
                open.set(nb, false);
                proof {
                    let next = nb as i32;
                    assert(basin@.take(before.len() as int) =~= before);
                    assert(grows_by(
                        n,
                        land@,
                        elev_code@,
                        lake_id@,
                        max_elev as int,
                        before,
                        next,
                    ));
                    assert forall|j: int| basin0.len() <= j < basin@.len() implies #[trigger] grows_by(
                        n,
                        land@,
                        elev_code@,
                        lake_id@,
                        max_elev as int,
                        basin@.take(j),
                        basin@[j],
                    ) by {
                        if j < before.len() {
                            assert(basin@.take(j) =~= before.take(j));
                            assert(basin@[j] == before[j]);
                        }
                    }
                    assert forall|a: int, b: int|
                        0 <= a < basin@.len() && 0 <= b < basin@.len() && a != b implies basin@[a]
                        != basin@[b] by {
                        if a == before.len() {
                            assert(before.contains(before[b]));
                        } else if b == before.len() {
                            assert(before.contains(before[a]));
                        }
                    }
                    let mask = growth_mask(n, land@, elev_code@, lake_id@, max_elev as int, basin@);
                    assert forall|d: int| 0 <= d < n * n implies open@[d] == mask[d] by {
                        if d == nb {
                            assert(basin@[before.len() as int] == d as i32);
                        } else {
                            assert(open_before[d] == growth_cell(
                                land@,
                                elev_code@,
                                lake_id@,
                                max_elev as int,
                                before,
                                d,
                            ));
                            if basin@.contains(d as i32) {
                                let j = choose|j: int| 0 <= j < basin@.len() && basin@[j] == d as i32;
                                assert(before[j] == d as i32);
                            }
                            if before.contains(d as i32) {
                                let j = choose|j: int| 0 <= j < before.len() && before[j] == d as i32;
                                assert(basin@[j] == d as i32);
                            }
                        }
                    }
                    assert(open@ =~= mask);
                    assert(basin@.take(basin0.len() as int) =~= basin0);
                }
            },
            None => {
                return;
            },
        }
    }
}


/// Squared distance from cell `c` to `(ax, az)`, in cells.
pub open spec fn dist2(size: int, c: int, ax: int, az: int) -> int {
    (cell_x(size, c) - ax) * (cell_x(size, c) - ax) + (cell_z(size, c) - az) * (cell_z(size, c) - az)
}

fn cell_dist2(size: usize, cell: i32, ax: i32, az: i32) -> (r: i64)
    requires
        side_ok(size as int),
        is_cell(size as int, cell as int),
        inside(size as int, ax as int, az as int),
    ensures
        r == dist2(size as int, cell as int, ax as int, az as int),
        r >= 0,
{
    proof {
        lemma_cell_coords(size as int, cell as int);
        let x = cell_x(size as int, cell as int) - ax;
        let z = cell_z(size as int, cell as int) - az;
        assert(0 <= x * x <= 46340 * 46340) by (nonlinear_arith)
            requires
                -46340 <= x <= 46340,
        ;
        assert(0 <= z * z <= 46340 * 46340) by (nonlinear_arith)
            requires
                -46340 <= z <= 46340,
        ;
    }
    let cx: i64 = (cell % size as i32) as i64;
    let cz: i64 = (cell / size as i32) as i64;
    let dx: i64 = cx - ax as i64;
    let dz: i64 = cz - az as i64;
    dx * dx + dz * dz
}

/// Where trimming starts: the cell at `(ax, az)` if the basin holds it, else the
/// basin cell nearest to it, the first of equals.
pub open spec fn trim_start(size: int, basin: Seq<i32>, ax: int, az: int, s: int) -> bool {
    if basin.contains(cell_number(size, ax, az) as i32) {
        s == cell_number(size, ax, az)
    } else {
        exists|i: int|
            #![trigger basin[i]]
            0 <= i < basin.len() && s == basin[i] && forall|j: int|
                #![trigger basin[j]]
                0 <= j < basin.len() ==> {
                    &&& dist2(size, s, ax, az) <= dist2(size, basin[j] as int, ax, az)
                    &&& j < i ==> dist2(size, s, ax, az) < dist2(size, basin[j] as int, ax, az)
                }
    }
}

/// A basin cell outside `kept` that shares an edge with one of them.
pub open spec fn beside(size: int, basin: Seq<i32>, kept: Seq<i32>, c: int) -> bool {
    &&& is_cell(size, c)
    &&& basin.contains(c as i32)
    &&& !kept.contains(c as i32)
    &&& exists|i: int, k: int|
        0 <= i < kept.len() && 0 <= k < 4 && #[trigger] step(size, kept[i] as int, k) == Some(c)
}

/// `next` ranks lowest of the basin cells beside `kept`.
pub open spec fn trims_to(
    size: int,
    basin: Seq<i32>,
    rank: Seq<u32>,
    kept: Seq<i32>,
    next: i32,
) -> bool {
    &&& beside(size, basin, kept, next as int)
    &&& forall|c: int| #[trigger] beside(size, basin, kept, c) ==> rank[next as int] <= rank[c]
}

fn nearest_cell(basin: &Vec<i32>, size: usize, ax: i32, az: i32) -> (r: usize)
    requires
        side_ok(size as int),
        inside(size as int, ax as int, az as int),
        cell_list(size as int, basin@),
        basin@.len() > 0,
        !basin@.contains(cell_number(size as int, ax as int, az as int) as i32),
    ensures
        trim_start(size as int, basin@, ax as int, az as int, r as int),
        basin@.contains(r as i32),
        is_cell(size as int, r as int),
{
    let ghost n = size as int;
    assert(is_cell(n, basin@[0] as int));
    let mut at: usize = 0;
    let mut nearest: i64 = cell_dist2(size, basin[0], ax, az);
    let mut i: usize = 1;
    while i < basin.len()
        invariant
            1 <= i <= basin@.len(),
            at < i,
            n == size,
            side_ok(n),
            inside(n, ax as int, az as int),
            cell_list(n, basin@),
            nearest == dist2(n, basin@[at as int] as int, ax as int, az as int),
            forall|j: int|
                #![trigger basin@[j]]
                0 <= j < i ==> {
                    &&& nearest <= dist2(n, basin@[j] as int, ax as int, az as int)
                    &&& j < at ==> nearest < dist2(n, basin@[j] as int, ax as int, az as int)
                },
        decreases basin@.len() - i,
    {
        assert(is_cell(n, basin@[i as int] as int));
        let d: i64 = cell_dist2(size, basin[i], ax, az);
        if d < nearest {
            nearest = d;
            at = i;
        }
        i += 1;
    }
    assert(is_cell(n, basin@[at as int] as int));
    let r: usize = basin[at] as usize;
    assert(r == basin@[at as int]);
    r
}

/// Keeps the `target` best-ranked cells of a basin that grow out from its
/// centre, one neighbouring cell at a time.
#[verifier::loop_isolation(false)]
pub fn trim_lake_basin(
    basin: &Vec<i32>,
    target: usize,
    size: usize,
    ax: i32,
    az: i32,
    rank: &Vec<u32>,
) -> (kept: Vec<i32>)
    requires
        side_ok(size as int),
        inside(size as int, ax as int, az as int),
        cell_list(size as int, basin@),
        basin@.len() > 0,
        rank@.len() == size * size,
    ensures
        cell_list(size as int, kept@),
        forall|i: int| 0 <= i < kept@.len() ==> basin@.contains(#[trigger] kept@[i]),
        kept@.len() <= target,
        target > 0 ==> kept@.len() > 0 && trim_start(
            size as int,
            basin@,
            ax as int,
            az as int,
            kept@[0] as int,
        ),
        forall|i: int|
            #![trigger kept@[i]]
            0 < i < kept@.len() ==> trims_to(size as int, basin@, rank@, kept@.take(i), kept@[i]),
        0 < kept@.len() < target ==> forall|c: int| !#[trigger] beside(size as int, basin@, kept@, c),
{
    let ghost n = size as int;
    proof {
        lemma_side(n);
    }
    let count: usize = size * size;
    let mut allowed: Vec<bool> = vec![false; count];
    let mut b: usize = 0;
    while b < basin.len()
        invariant
            b <= basin@.len(),
            allowed@.len() == n * n,
            forall|c: int|
                is_cell(n, c) ==> #[trigger] allowed@[c] == basin@.take(b as int).contains(c as i32),
        decreases basin@.len() - b,
    {
        assert(is_cell(n, basin@[b as int] as int));
        let ghost before = allowed@;
        allowed.set(basin[b] as usize, true);
        proof {
            let then = basin@.take(b as int);
            let now = basin@.take(b + 1);
            assert(now =~= then.push(basin@[b as int]));
            assert forall|c: int| is_cell(n, c) implies #[trigger] allowed@[c] == now.contains(
                c as i32,
            ) by {
                assert(before[c] == then.contains(c as i32));
                if then.contains(c as i32) {
                    let j = choose|j: int| 0 <= j < then.len() && then[j] == c as i32;
                    assert(now[j] == c as i32);
                }
                if c == basin@[b as int] {
                    assert(now[b as int] == c as i32);
                }
                if now.contains(c as i32) {
                    let j = choose|j: int| 0 <= j < now.len() && now[j] == c as i32;
                    if j < b {
                        assert(then[j] == c as i32);
                    }
                }
            }
        }
        b += 1;
    }
    assert(basin@.take(basin@.len() as int) =~= basin@);
    let centre: usize = index_of(ax, az, size);
    let start: usize = if allowed[centre] {
        centre
    } else {
        nearest_cell(basin, size, ax, az)
    };
    assert(allowed@[start as int]);
    let mut state: Vec<u8> = vec![0u8; count];
    let mut frontier: Vec<i32> = Vec::new();
    frontier.push(start as i32);
    state.set(start, 1);
    let mut kept: Vec<i32> = Vec::new();
    proof {
        assert(frontier@[0] == start as i32);
        assert(frontier@.contains(start as i32));
    }
    while frontier.len() > 0 && kept.len() < target
        invariant
            state@.len() == n * n,
            cell_list(n, kept@),
            cell_list(n, frontier@),
            kept@.len() <= target,
            kept@.len() == 0 ==> frontier@ == seq![start as i32],
            kept@.len() > 0 ==> kept@[0] == start as i32,
            forall|i: int| 0 <= i < kept@.len() ==> basin@.contains(#[trigger] kept@[i]),
            forall|c: int|
                #![trigger state@[c]]
                is_cell(n, c) ==> {
                    &&& (state@[c] == 1 <==> frontier@.contains(c as i32))
                    &&& (state@[c] == 2 <==> kept@.contains(c as i32))
                    &&& (state@[c] != 0 ==> allowed@[c])
                    &&& state@[c] <= 2
                },
            forall|i: int, k: int|
                #![trigger step(n, kept@[i] as int, k)]
                0 <= i < kept@.len() && 0 <= k < 4 ==> match step(n, kept@[i] as int, k) {
                    Some(c) => is_cell(n, c) && allowed@[c] ==> state@[c] != 0,
                    None => true,
                },
            forall|c: int|
                #![trigger state@[c]]
                is_cell(n, c) && state@[c] == 1 && kept@.len() > 0 ==> exists|i: int, k: int|
                    0 <= i < kept@.len() && 0 <= k < 4 && #[trigger] step(n, kept@[i] as int, k)
                        == Some(c),
            forall|i: int|
                #![trigger kept@[i]]
                0 < i < kept@.len() ==> trims_to(n, basin@, rank@, kept@.take(i), kept@[i]),
        decreases target - kept@.len(),
    {
        let mut best_i: usize = 0;
        let mut best_rank: u32 = u32::MAX;
        let mut i: usize = 0;
        while i < frontier.len()
            invariant
                i <= frontier@.len(),
                best_i < frontier@.len(),
                best_rank == u32::MAX || best_rank == rank@[frontier@[best_i as int] as int],
                forall|j: int|
                    0 <= j < i ==> best_rank <= rank@[#[trigger] frontier@[j] as int],
            decreases frontier@.len() - i,
        {
            assert(is_cell(n, frontier@[i as int] as int));
            let r: u32 = rank[frontier[i] as usize];
            if r < best_rank {
                best_rank = r;
                best_i = i;
            }
            i += 1;
        }
        let ghost frontier_before = frontier@;
        let ghost state_before = state@;
        let ghost kept_before = kept@;
        let cell: i32 = frontier.swap_remove(best_i);
        let ghost frontier_mid = frontier@;
        proof {
            assert(cell == frontier_before[best_i as int]);
            assert(is_cell(n, cell as int));
            assert(frontier_before.contains(cell));
            assert(state_before[cell as int] == 1);
            assert forall|j: int| 0 <= j < frontier_before.len() implies rank@[cell as int]
                <= rank@[#[trigger] frontier_before[j] as int] by {
                assert(best_rank <= rank@[frontier_before[j] as int]);
            }
            if kept_before.len() > 0 {
                assert forall|c: int| #[trigger] beside(n, basin@, kept_before, c) implies rank@[cell as int]
                    <= rank@[c] by {
                    let (j, k) = choose|j: int, k: int|
                        0 <= j < kept_before.len() && 0 <= k < 4 && #[trigger] step(
                            n,
                            kept_before[j] as int,
                            k,
                        ) == Some(c);
                    assert(step(n, kept_before[j] as int, k) == Some(c));
                    assert(state_before[c] != 0 && state_before[c] != 2);
                    assert(frontier_before.contains(c as i32));
                    let f = choose|f: int|
                        0 <= f < frontier_before.len() && frontier_before[f] == c as i32;
                    assert(rank@[cell as int] <= rank@[frontier_before[f] as int]);
                }
                assert(beside(n, basin@, kept_before, cell as int));
                assert(trims_to(n, basin@, rank@, kept_before, cell));
            }
            assert forall|j: int| 0 <= j < frontier_mid.len() implies frontier_mid[j] != cell by {
                if j == best_i {
                    assert(frontier_mid[j] == frontier_before[frontier_before.len() - 1]);
                } else {
                    assert(frontier_mid[j] == frontier_before[j]);
                }
            }
            assert forall|c: int| is_cell(n, c) implies (#[trigger] frontier_mid.contains(c as i32)
                <==> state_before[c] == 1 && c != cell) by {
                if frontier_mid.contains(c as i32) {
                    let j = choose|j: int| 0 <= j < frontier_mid.len() && frontier_mid[j] == c as i32;
                    if j == best_i {
                        assert(frontier_before[frontier_before.len() - 1] == c as i32);
                    } else {
                        assert(frontier_before[j] == c as i32);
                    }
                    assert(frontier_before.contains(c as i32));
                    assert(state_before[c] == 1);
                }
                if state_before[c] == 1 && c != cell {
                    let j = choose|j: int|
                        0 <= j < frontier_before.len() && frontier_before[j] == c as i32;
                    if j == frontier_before.len() - 1 {
                        assert(frontier_mid[best_i as int] == c as i32);
                    } else {
                        assert(frontier_mid[j] == c as i32);
                    }
                }
            }
            assert(cell_list(n, frontier_mid)) by {
                assert forall|a: int, b: int|
                    0 <= a < frontier_mid.len() && 0 <= b < frontier_mid.len() && a
                        != b implies frontier_mid[a] != frontier_mid[b] by {
                    let last = frontier_before.len() - 1;
                    let pa = if a == best_i { last } else { a };
                    let pb = if b == best_i { last } else { b };
                    assert(frontier_mid[a] == frontier_before[pa]);
                    assert(frontier_mid[b] == frontier_before[pb]);
                }
                assert forall|a: int| 0 <= a < frontier_mid.len() implies is_cell(
                    n,
                    #[trigger] frontier_mid[a] as int,
                ) by {
                    let last = frontier_before.len() - 1;
                    let pa = if a == best_i { last } else { a };
                    assert(is_cell(n, frontier_before[pa] as int));
                }
            }
        }
        state.set(cell as usize, 2);
        kept.push(cell);
        proof {
            assert(kept@.last() == cell);
            assert forall|a: int, b: int|
                0 <= a < kept@.len() && 0 <= b < kept@.len() && a != b implies kept@[a]
                != kept@[b] by {
                if a == kept_before.len() {
                    assert(kept_before.contains(kept_before[b]));
                    assert(is_cell(n, kept_before[b] as int));
                    assert(state_before[kept_before[b] as int] == 2);
                } else if b == kept_before.len() {
                    assert(kept_before.contains(kept_before[a]));
                    assert(is_cell(n, kept_before[a] as int));
                    assert(state_before[kept_before[a] as int] == 2);
                }
            }
            assert forall|j: int| 0 < j < kept@.len() implies #[trigger] trims_to(
                n,
                basin@,
                rank@,
                kept@.take(j),
                kept@[j],
            ) by {
                if j < kept_before.len() {
                    assert(kept@.take(j) =~= kept_before.take(j));
                    assert(kept@[j] == kept_before[j]);
                    assert(trims_to(n, basin@, rank@, kept_before.take(j), kept_before[j]));
                } else {
                    assert(kept@.take(j) =~= kept_before);
                }
            }
            assert forall|c: int| is_cell(n, c) implies (#[trigger] state@[c] == 2
                <==> kept@.contains(c as i32)) by {
                if kept_before.contains(c as i32) {
                    let j = choose|j: int| 0 <= j < kept_before.len() && kept_before[j] == c as i32;
                    assert(kept@[j] == c as i32);
                }
                if kept@.contains(c as i32) && c != cell {
                    let j = choose|j: int| 0 <= j < kept@.len() && kept@[j] == c as i32;
                    assert(kept_before[j] == c as i32);
                }
                assert(state_before[c] == 2 <==> kept_before.contains(c as i32));
                if c == cell {
                    assert(kept@[kept_before.len() as int] == c as i32);
                }
            }
            assert(basin@.contains(cell)) by {
                assert(allowed@[cell as int]);
            }
            assert forall|c: int| is_cell(n, c) && #[trigger] state@[c] == 1 && kept_before.len()
                > 0 implies exists|i: int, k: int|
                0 <= i < kept@.len() && 0 <= k < 4 && #[trigger] step(n, kept@[i] as int, k) == Some(
                    c,
                ) by {
                assert(state_before[c] == 1);
                let (j, k) = choose|j: int, k: int|
                    0 <= j < kept_before.len() && 0 <= k < 4 && #[trigger] step(
                        n,
                        kept_before[j] as int,
                        k,
                    ) == Some(c);
                assert(step(n, kept@[j] as int, k) == Some(c));
            }
            if kept_before.len() == 0 {
                assert(frontier_before =~= seq![start as i32]);
                assert(frontier_mid =~= Seq::<i32>::empty());
                assert forall|c: int| is_cell(n, c) implies #[trigger] state@[c] != 1 by {
                    assert(state_before[c] == 1 <==> frontier_before.contains(c as i32));
                    if state@[c] == 1 {
                        assert(frontier_before[0] == c as i32);
                    }
                }
            }
        }
        let mut k: usize = 0;
        while k < 4
            invariant
                k <= 4,
                state@.len() == n * n,
                cell_list(n, frontier@),
                forall|c: int|
                    #![trigger state@[c]]
                    is_cell(n, c) ==> {
                        &&& (state@[c] == 1 <==> frontier@.contains(c as i32))
                        &&& (state@[c] == 2 <==> kept@.contains(c as i32))
                        &&& (state@[c] != 0 ==> allowed@[c])
                        &&& state@[c] <= 2
                    },
                forall|i: int, l: int|
                    #![trigger step(n, kept@[i] as int, l)]
                    0 <= i < kept@.len() && 0 <= l < 4 && (i < kept@.len() - 1 || l < k)
                        ==> match step(n, kept@[i] as int, l) {
                        Some(c) => is_cell(n, c) && allowed@[c] ==> state@[c] != 0,
                        None => true,
                    },
                forall|c: int|
                    #![trigger state@[c]]
                    is_cell(n, c) && state@[c] == 1 ==> exists|i: int, l: int|
                        0 <= i < kept@.len() && 0 <= l < 4 && #[trigger] step(n, kept@[i] as int, l)
                            == Some(c),
            decreases 4 - k,
        {
            let ghost state_in = state@;
            let ghost frontier_in = frontier@;
            if let Some(nb) = neighbor(size, cell as usize, k) {
                if allowed[nb] && state[nb] == 0 {
                    state.set(nb, 1);
                    frontier.push(nb as i32);
                    proof {
                        assert(step(n, kept@[kept@.len() - 1] as int, k as int) == Some(nb as int));
                        assert(!frontier_in.contains(nb as i32)) by {
                            assert(state_in[nb as int] != 1);
                        }
                        assert forall|a: int, b: int|
                            0 <= a < frontier@.len() && 0 <= b < frontier@.len() && a
                                != b implies frontier@[a] != frontier@[b] by {
                            if a == frontier_in.len() {
                                assert(frontier_in.contains(frontier_in[b]));
                            } else if b == frontier_in.len() {
                                assert(frontier_in.contains(frontier_in[a]));
                            }
                        }
                        assert forall|c: int| is_cell(n, c) implies (#[trigger] state@[c] == 1
                            <==> frontier@.contains(c as i32)) by {
                            assert(state_in[c] == 1 <==> frontier_in.contains(c as i32));
                            if frontier_in.contains(c as i32) {
                                let j = choose|j: int|
                                    0 <= j < frontier_in.len() && frontier_in[j] == c as i32;
                                assert(frontier@[j] == c as i32);
                            }
                            if c == nb {
                                assert(frontier@[frontier_in.len() as int] == c as i32);
                            } else if frontier@.contains(c as i32) {
                                let j = choose|j: int|
                                    0 <= j < frontier@.len() && frontier@[j] == c as i32;
                                assert(frontier_in[j] == c as i32);
                            }
                        }
                        assert forall|c: int| is_cell(n, c) && #[trigger] state@[c]
                            == 1 implies exists|i: int, l: int|
                            0 <= i < kept@.len() && 0 <= l < 4 && #[trigger] step(
                                n,
                                kept@[i] as int,
                                l,
                            ) == Some(c) by {
                            if c != nb {
                                assert(state_in[c] == 1);
                            }
                        }
                    }
                }
            }
            k += 1;
        }
    }
    proof {
        if 0 < kept@.len() && kept@.len() < target {
            assert forall|c: int| !#[trigger] beside(n, basin@, kept@, c) by {
                if beside(n, basin@, kept@, c) {
                    let (j, k) = choose|j: int, k: int|
                        0 <= j < kept@.len() && 0 <= k < 4 && #[trigger] step(n, kept@[j] as int, k)
                            == Some(c);
                    assert(step(n, kept@[j] as int, k) == Some(c));
                    assert(state@[c] != 0);
                    assert(frontier@.contains(c as i32));
                }
            }
        }
    }
    kept
}


/// Open water that is no lake.
pub open spec fn is_sea(land: Seq<u8>, lake_id: Seq<i32>, c: int) -> bool {
    land[c] == 0 && lake_id[c] < 0
}

/// Land that no lake covers.
pub open spec fn is_dry(land: Seq<u8>, lake_id: Seq<i32>, c: int) -> bool {
    land[c] != 0 && lake_id[c] < 0
}

pub open spec fn sea_mask(size: int, land: Seq<u8>, lake_id: Seq<i32>) -> Seq<bool> {
    Seq::new((size * size) as nat, |c: int| is_sea(land, lake_id, c))
}

pub open spec fn dry_mask(size: int, land: Seq<u8>, lake_id: Seq<i32>) -> Seq<bool> {
    Seq::new((size * size) as nat, |c: int| is_dry(land, lake_id, c))
}

/// What a new lake's water may run over: the sea, and dry land outside it.
pub open spec fn rim_mask(size: int, land: Seq<u8>, lake_id: Seq<i32>, basin: Seq<i32>) -> Seq<
    bool,
> {
    Seq::new(
        (size * size) as nat,
        |c: int| land[c] == 0 || (lake_id[c] < 0 && !basin.contains(c as i32)),
    )
}

/// `choice` is the lowest place on the rim, by list place and side, if there is
/// a rim at all.
pub open spec fn rim_choice(
    size: int,
    cells: Seq<i32>,
    rim: Seq<bool>,
    elev: Seq<u8>,
    choice: Option<(int, int)>,
) -> bool {
    match choice {
        Some(at) => lowest_hit(size, cells, rim, elev, at.0, at.1),
        None => no_hit(size, cells, rim),
    }
}

/// Elevation of the chosen rim place, or `fallback` where there is none.
pub open spec fn rim_level(
    size: int,
    cells: Seq<i32>,
    elev: Seq<u8>,
    choice: Option<(int, int)>,
    fallback: int,
) -> int {
    match choice {
        Some(at) => hit_elev(size, cells, elev, at.0, at.1) as int,
        None => fallback,
    }
}

/// The lake cell beside the chosen rim place, or the first cell.
pub open spec fn spill_of(cells: Seq<i32>, choice: Option<(int, int)>) -> i32 {
    match choice {
        Some(at) => cells[at.0],
        None => cells[0],
    }
}

/// Surface code of a lake whose rim is at `rim`: just below it.
pub open spec fn surface_below(rim: int) -> int {
    clamped(rim - 1, 34, 250)
}

/// The greatest whole number up to `cap` whose square is at most `d2`.
pub open spec fn root_upto(d2: int, cap: nat) -> int
    decreases cap,
{
    if cap == 0 {
        0
    } else if cap * cap <= d2 {
        cap as int
    } else {
        root_upto(d2, (cap - 1) as nat)
    }
}

/// Bed code at squared distance `d2` from the middle of a lake carved `depth`
/// codes deep there, one code shallower per cell of distance.
pub open spec fn bed_code(surface: int, depth: nat, d2: int) -> int {
    clamped(surface - 2 - (depth - root_upto(d2, depth)), 33, surface - 1)
}

/// Bed code of a drowned hollow.
pub open spec fn hollow_bed(surface: int) -> int {
    clamped(surface - clamped(surface - 34, 2, 12), 33, surface - 1)
}

/// `lake_id` with the cells of `basin` given to lake `id`.
pub open spec fn with_lake(lake_id: Seq<i32>, basin: Seq<i32>, id: i32) -> Seq<i32> {
    Seq::new(
        lake_id.len(),
        |c: int|
            if basin.contains(c as i32) {
                id
            } else {
                lake_id[c]
            },
    )
}

/// Lakes and a further lakeless cell leave room for one more lake number.
pub proof fn lemma_lake_room(size: int, scratch: &LakeScratch, c: i32)
    requires
        side_ok(size),
        scratch.well_formed(size),
        is_cell(size, c as int),
        scratch.lake_id@[c as int] < 0,
    ensures
        scratch.lakes@.len() < size * size <= 2147395600,
{
    lemma_side(size);
    let firsts = Seq::new(scratch.lakes@.len(), |i: int| scratch.lakes@[i].cells@[0]);
    let all = firsts.push(c);
    assert forall|i: int| 0 <= i < all.len() implies is_cell(size, #[trigger] all[i] as int) by {
        if i < firsts.len() {
            assert(is_cell(size, scratch.lakes@[i].cells@[0] as int));
        }
    }
    assert forall|i: int, j: int|
        0 <= i < all.len() && 0 <= j < all.len() && i != j implies all[i] != all[j] by {
        if i < firsts.len() {
            assert(scratch.lake_id@[scratch.lakes@[i].cells@[0] as int] == i);
        }
        if j < firsts.len() {
            assert(scratch.lake_id@[scratch.lakes@[j].cells@[0] as int] == j);
        }
    }
    lemma_distinct_len(all, size * size);
}

/// Adding a lake on lakeless cells keeps the lakes well formed.
pub proof fn lemma_lake_added(size: int, before: &LakeScratch, after: &LakeScratch, basin: Seq<i32>)
    requires
        side_ok(size),
        before.well_formed(size),
        cell_list(size, basin),
        basin.len() > 0,
        forall|i: int| 0 <= i < basin.len() ==> before.lake_id@[#[trigger] basin[i] as int] < 0,
        after.lakes@.len() == before.lakes@.len() + 1,
        forall|i: int|
            0 <= i < before.lakes@.len() ==> #[trigger] after.lakes@[i] == before.lakes@[i],
        after.lakes@.last().id == before.lakes@.len(),
        after.lakes@.last().cells@ == basin,
        after.lake_id@ == with_lake(before.lake_id@, basin, before.lakes@.len() as i32),
    ensures
        after.well_formed(size),
{
    lemma_side(size);
    lemma_lake_room(size, before, basin[0]);
    let n = before.lakes@.len() as int;
    assert forall|i: int, j: int|
        #![trigger after.lakes@[i].cells@[j]]
        0 <= i < after.lakes@.len() && 0 <= j < after.lakes@[i].cells@.len() implies after.lake_id@[after.lakes@[i].cells@[j] as int]
        == i by {
        let c = after.lakes@[i].cells@[j];
        if i < n {
            assert(after.lakes@[i] == before.lakes@[i]);
            assert(before.lake_id@[before.lakes@[i].cells@[j] as int] == i);
            assert(is_cell(size, before.lakes@[i].cells@[j] as int));
            if basin.contains(c) {
                let b = choose|b: int| 0 <= b < basin.len() && basin[b] == c;
                assert(before.lake_id@[basin[b] as int] < 0);
            }
        } else {
            assert(basin.contains(basin[j]));
            assert(is_cell(size, basin[j] as int));
        }
    }
    assert forall|c: int| is_cell(size, c) && #[trigger] after.lake_id@[c] >= 0 implies {
        &&& after.lake_id@[c] < after.lakes@.len()
        &&& after.lakes@[after.lake_id@[c] as int].cells@.contains(c as i32)
    } by {
        if !basin.contains(c as i32) {
            assert(after.lake_id@[c] == before.lake_id@[c]);
            assert(after.lakes@[before.lake_id@[c] as int] == before.lakes@[before.lake_id@[c] as int]);
        }
    }
}

/// Gives every cell of `basin` to lake `id`.
pub fn claim_cells(lake_id: &mut Vec<i32>, basin: &Vec<i32>, id: i32)
    requires
        forall|i: int| 0 <= i < basin@.len() ==> 0 <= #[trigger] basin@[i] < old(lake_id)@.len(),
        old(lake_id)@.len() <= 2147395600,
    ensures
        final(lake_id)@ == with_lake(old(lake_id)@, basin@, id),
{
    let ghost before = lake_id@;
    let mut i: usize = 0;
    while i < basin.len()
        invariant
            i <= basin@.len(),
            lake_id@.len() == before.len(),
            before.len() <= 2147395600,
            forall|j: int| 0 <= j < basin@.len() ==> 0 <= #[trigger] basin@[j] < before.len(),
            forall|c: int|
                0 <= c < before.len() ==> #[trigger] lake_id@[c] == (if basin@.take(i as int).contains(
                    c as i32,
                ) {
                    id
                } else {
                    before[c]
                }),
        decreases basin@.len() - i,
    {
        let ghost mid = lake_id@;
        assert(0 <= basin@[i as int] < before.len());
        lake_id.set(basin[i] as usize, id);
        proof {
            let then = basin@.take(i as int);
            let now = basin@.take(i + 1);
            assert forall|c: int| 0 <= c < before.len() implies #[trigger] lake_id@[c] == (
            if now.contains(c as i32) {
                id
            } else {
                before[c]
            }) by {
                assert(mid[c] == (if then.contains(c as i32) {
                    id
                } else {
                    before[c]
                }));
                if then.contains(c as i32) {
                    let j = choose|j: int| 0 <= j < then.len() && then[j] == c as i32;
                    assert(now[j] == c as i32);
                }
                if c == basin@[i as int] {
                    assert(now[i as int] == c as i32);
                } else if now.contains(c as i32) {
                    let j = choose|j: int| 0 <= j < now.len() && now[j] == c as i32;
                    assert(then[j] == c as i32);
                }
            }
        }
        i += 1;
    }
    assert(basin@.take(basin@.len() as int) =~= basin@);
    assert(lake_id@ =~= with_lake(before, basin@, id));
}

/// Marks `basin`'s cells in a fresh mask of `count` cells.
pub(crate) fn mark_cells(count: usize, basin: &Vec<i32>) -> (r: Vec<bool>)
    requires
        count <= 2147395600,
        forall|i: int| 0 <= i < basin@.len() ==> 0 <= #[trigger] basin@[i] < count,
    ensures
        r@.len() == count,
        forall|c: int| 0 <= c < count ==> #[trigger] r@[c] == basin@.contains(c as i32),
{
    let mut r: Vec<bool> = vec![false; count];
    let mut i: usize = 0;
    while i < basin.len()
        invariant
            i <= basin@.len(),
            r@.len() == count,
            count <= 2147395600,
            forall|j: int| 0 <= j < basin@.len() ==> 0 <= #[trigger] basin@[j] < count,
            forall|c: int|
                0 <= c < count ==> #[trigger] r@[c] == basin@.take(i as int).contains(c as i32),
        decreases basin@.len() - i,
    {
        let ghost mid = r@;
        assert(0 <= basin@[i as int] < count);
        r.set(basin[i] as usize, true);
        proof {
            let then = basin@.take(i as int);
            let now = basin@.take(i + 1);
            assert forall|c: int| 0 <= c < count implies #[trigger] r@[c] == now.contains(c as i32) by {
                assert(mid[c] == then.contains(c as i32));
                if then.contains(c as i32) {
                    let j = choose|j: int| 0 <= j < then.len() && then[j] == c as i32;
                    assert(now[j] == c as i32);
                }
                if c == basin@[i as int] {
                    assert(now[i as int] == c as i32);
                } else if now.contains(c as i32) {
                    let j = choose|j: int| 0 <= j < now.len() && now[j] == c as i32;
                    assert(then[j] == c as i32);
                }
            }
        }
        i += 1;
    }
    assert(basin@.take(basin@.len() as int) =~= basin@);
    r
}

fn depth_root(d2: i64, depth: i32) -> (r: i32)
    requires
        0 <= depth <= 1000,
        d2 >= 0,
    ensures
        r == root_upto(d2 as int, depth as nat),
        0 <= r <= depth,
{
    let mut cap: i32 = depth;
    while cap > 0
        invariant
            0 <= cap <= depth <= 1000,
            d2 >= 0,
            root_upto(d2 as int, cap as nat) == root_upto(d2 as int, depth as nat),
        decreases cap,
    {
        let c: i64 = cap as i64;
        assert(c * c <= 1000 * 1000) by (nonlinear_arith)
            requires
                0 <= c <= 1000,
        ;
        if c * c <= d2 {
            return cap;
        }
        cap -= 1;
    }
    0
}


/// The elevation of every cell after a lake was placed around `(ax, az)`: the
/// basin is carved, and dry land at the chosen rim place is cut down to let the
/// water out.
pub open spec fn elev_after_lake(
    size: int,
    land: Seq<u8>,
    elev: Seq<u8>,
    basin: Seq<i32>,
    ax: int,
    az: int,
    surface: int,
    depth: nat,
    choice: Option<(int, int)>,
    c: int,
) -> int {
    if basin.contains(c as i32) {
        bed_code(surface, depth, dist2(size, c, ax, az))
    } else if choice is Some && step(size, basin[(choice->0).0] as int, (choice->0).1) == Some(c)
        && land[c] != 0 {
        clamped(if elev[c] < surface + 1 { elev[c] as int } else { surface + 1 }, 33, 255)
    } else {
        elev[c] as int
    }
}

/// A lake of `basin` whose water stands just below the lowest place of its rim.
pub open spec fn lake_placed(
    size: int,
    land: Seq<u8>,
    lake_id: Seq<i32>,
    elev: Seq<u8>,
    elev_after: Seq<u8>,
    basin: Seq<i32>,
    ax: int,
    az: int,
    depth: nat,
    lake: Lake,
    choice: Option<(int, int)>,
) -> bool {
    &&& rim_choice(size, basin, rim_mask(size, land, lake_id, basin), elev, choice)
    &&& lake.cells@ == basin
    &&& lake.spill_cell == spill_of(basin, choice)
    &&& lake.surface_code == surface_below(
        rim_level(size, basin, elev, choice, elev[cell_number(size, ax, az)] + 6),
    )
    &&& lake.surface_z == code_metres(lake.surface_code as int)
    &&& elev_after.len() == elev.len()
    &&& forall|c: int|
        is_cell(size, c) ==> #[trigger] elev_after[c] == elev_after_lake(
            size,
            land,
            elev,
            basin,
            ax,
            az,
            lake.surface_code as int,
            depth,
            choice,
            c,
        )
}

/// Whether a lake may be tried at `(ax, az)`: on the grid, on dry land.
pub fn lake_site_open(ax: i32, az: i32, size: usize, land: &[u8], lake_id: &[i32]) -> (r: bool)
    requires
        side_ok(size as int),
        land@.len() == size * size,
        lake_id@.len() == size * size,
    ensures
        r == (inside(size as int, ax as int, az as int) && is_dry(
            land@,
            lake_id@,
            cell_number(size as int, ax as int, az as int),
        )),
{
    if !in_bounds(ax, az, size) {
        return false;
    }
    let idx: usize = index_of(ax, az, size);
    land[idx] != 0 && lake_id[idx] < 0
}

/// `fitted` is `basin` brought to `target` cells: grown where it was short,
/// trimmed and, if that left it short, grown again where it was long.
pub open spec fn basin_fitted(
    size: int,
    land: Seq<u8>,
    elev: Seq<u8>,
    lake_id: Seq<i32>,
    max_elev: int,
    ax: int,
    az: int,
    rank: Seq<u32>,
    target: int,
    basin: Seq<i32>,
    trimmed: Seq<i32>,
    fitted: Seq<i32>,
) -> bool {
    let from = if basin.len() > target {
        trimmed
    } else {
        basin
    };
    &&& basin.len() > target ==> {
        &&& trimmed.len() <= target
        &&& target > 0 ==> trimmed.len() > 0 && trim_start(size, basin, ax, az, trimmed[0] as int)
        &&& forall|i: int| 0 <= i < trimmed.len() ==> basin.contains(#[trigger] trimmed[i])
        &&& forall|i: int|
            #![trigger trimmed[i]]
            0 < i < trimmed.len() ==> trims_to(size, basin, rank, trimmed.take(i), trimmed[i])
        &&& 0 < trimmed.len() < target ==> forall|c: int|
            !#[trigger] beside(size, basin, trimmed, c)
    }
    &&& from.len() <= fitted.len()
    &&& fitted.take(from.len() as int) == from
    &&& forall|i: int|
        #![trigger fitted[i]]
        from.len() <= i < fitted.len() ==> grows_by(
            size,
            land,
            elev,
            lake_id,
            max_elev,
            fitted.take(i),
            fitted[i],
        )
    &&& fitted.len() <= target
    &&& fitted.len() == target || no_hit(
        size,
        fitted,
        growth_mask(size, land, elev, lake_id, max_elev, fitted),
    )
}

/// Brings a drawn basin to its target size. `rank` orders the basin's cells for
/// trimming, lowest first.
pub fn fit_lake_basin(
    basin: Vec<i32>,
    target: usize,
    size: usize,
    ax: i32,
    az: i32,
    land: &[u8],
    elev_code: &[u8],
    lake_id: &[i32],
    max_elev: i32,
    rank: &Vec<u32>,
) -> (r: Vec<i32>)
    requires
        side_ok(size as int),
        inside(size as int, ax as int, az as int),
        land@.len() == size * size,
        elev_code@.len() == size * size,
        lake_id@.len() == size * size,
        rank@.len() == size * size,
        cell_list(size as int, basin@),
        forall|i: int|
            0 <= i < basin@.len() ==> is_dry(land@, lake_id@, #[trigger] basin@[i] as int),
    ensures
        cell_list(size as int, r@),
        forall|i: int| 0 <= i < r@.len() ==> is_dry(land@, lake_id@, #[trigger] r@[i] as int),
        exists|trimmed: Seq<i32>| #[trigger]
            basin_fitted(
                size as int,
                land@,
                elev_code@,
                lake_id@,
                max_elev as int,
                ax as int,
                az as int,
                rank@,
                target as int,
                basin@,
                trimmed,
                r@,
            ),
{
    let ghost n = size as int;
    let ghost drawn = basin@;
    let mut fitted: Vec<i32> = basin;
    let ghost mut trimmed: Seq<i32> = Seq::empty();
    if fitted.len() > target {
        let kept: Vec<i32> = trim_lake_basin(&fitted, target, size, ax, az, rank);
        proof {
            trimmed = kept@;
            assert forall|i: int| 0 <= i < kept@.len() implies is_dry(
                land@,
                lake_id@,
                #[trigger] kept@[i] as int,
            ) by {
                let j = choose|j: int| 0 <= j < drawn.len() && drawn[j] == kept@[i];
                assert(is_dry(land@, lake_id@, drawn[j] as int));
            }
        }
        fitted = kept;
    }
    let ghost from = fitted@;
    assert(fitted@.take(fitted@.len() as int) =~= fitted@);
    if fitted.len() < target {
        grow_lake_basin(&mut fitted, target, size, land, elev_code, lake_id, max_elev);
    }
    proof {
        assert forall|i: int| 0 <= i < fitted@.len() implies is_dry(
            land@,
            lake_id@,
            #[trigger] fitted@[i] as int,
        ) by {
            if i < from.len() {
                assert(fitted@.take(from.len() as int)[i] == fitted@[i]);
                assert(is_dry(land@, lake_id@, from[i] as int));
            }
        }
        assert(basin_fitted(
            n,
            land@,
            elev_code@,
            lake_id@,
            max_elev as int,
            ax as int,
            az as int,
            rank@,
            target as int,
            drawn,
            trimmed,
            fitted@,
        ));
    }
    fitted
}

/// Puts a lake on `basin`, drawn around `(ax, az)` and `depth_carve` codes deep
/// in the middle. Says whether the basin had a lake's size.
#[verifier::loop_isolation(false)]
pub fn place_lake(
    size: usize,
    ax: i32,
    az: i32,
    basin: Vec<i32>,
    depth_carve: i32,
    land: &[u8],
    elev_code: &mut [u8],
    scratch: &mut LakeScratch,
) -> (r: bool)
    requires
        side_ok(size as int),
        inside(size as int, ax as int, az as int),
        0 <= depth_carve <= 1000,
        land@.len() == size * size,
        old(elev_code)@.len() == size * size,
        old(scratch).well_formed(size as int),
        cell_list(size as int, basin@),
        forall|i: int|
            0 <= i < basin@.len() ==> is_dry(
                land@,
                old(scratch).lake_id@,
                #[trigger] basin@[i] as int,
            ),
    ensures
        r == (LAKE_MIN_CELLS <= basin@.len() <= lake_cap(size as int)),
        !r ==> final(elev_code)@ == old(elev_code)@ && *final(scratch) == *old(scratch),
        final(scratch).well_formed(size as int),
        r ==> {
            &&& final(scratch).lakes@.len() == old(scratch).lakes@.len() + 1
            &&& forall|i: int|
                0 <= i < old(scratch).lakes@.len() ==> #[trigger] final(scratch).lakes@[i] == old(scratch).lakes@[i]
            &&& final(scratch).lakes@.last().id == old(scratch).lakes@.len()
            &&& final(scratch).lake_id@ == with_lake(
                old(scratch).lake_id@,
                basin@,
                old(scratch).lakes@.len() as i32,
            )
            &&& exists|choice: Option<(int, int)>| #[trigger]
                lake_placed(
                    size as int,
                    land@,
                    old(scratch).lake_id@,
                    old(elev_code)@,
                    final(elev_code)@,
                    basin@,
                    ax as int,
                    az as int,
                    depth_carve as nat,
                    final(scratch).lakes@.last(),
                    choice,
                )
        },
{
    let ghost n = size as int;
    let ghost elev0 = elev_code@;
    let ghost scratch0 = *scratch;
    let ghost cells = basin@;
    proof {
        lemma_side(n);
    }
    if basin.len() < LAKE_MIN_CELLS || basin.len() > lake_max_cells(size) {
        return false;
    }
    let count: usize = size * size;
    let idx: usize = index_of(ax, az, size);
    proof {
        assert forall|i: int| 0 <= i < basin@.len() implies 0 <= #[trigger] basin@[i] < count by {
            assert(is_cell(n, basin@[i] as int));
        }
        assert(is_dry(land@, scratch0.lake_id@, basin@[0] as int));
        lemma_lake_room(n, &scratch0, basin@[0]);
    }
    let held: Vec<bool> = mark_cells(count, &basin);
    let mut rim: Vec<bool> = Vec::new();
    let mut c: usize = 0;
    while c < count
        invariant
            c <= count,
            rim@.len() == c,
            forall|d: int|
                0 <= d < c ==> #[trigger] rim@[d] == rim_mask(n, land@, scratch0.lake_id@, cells)[d],
        decreases count - c,
    {
        rim.push(land[c] == 0 || (scratch.lake_id[c] < 0 && !held[c]));
        c += 1;
    }
    assert(rim@ =~= rim_mask(n, land@, scratch0.lake_id@, cells));
    let lowest: Option<(usize, usize)> = lowest_around(size, &basin, &rim, elev_code);
    let ghost choice: Option<(int, int)> = match lowest {
        Some(at) => Some((at.0 as int, at.1 as int)),
        None => None,
    };
    assert(rim_choice(n, cells, rim_mask(n, land@, scratch0.lake_id@, cells), elev0, choice));
    let mut spill_cell: i32 = basin[0];
    let mut rim_min: i32 = elev_code[idx] as i32 + 6;
    let mut spill_out: Option<usize> = None;
    if let Some((i, k)) = lowest {
        assert(hit(n, cells, rim@, i as int, k as int));
        assert(is_cell(n, basin@[i as int] as int));
        spill_cell = basin[i];
        let out: usize = neighbor(size, basin[i] as usize, k).unwrap();
        rim_min = elev_code[out] as i32;
        spill_out = Some(out);
    }
    let surface_code: i32 = clamp_i(rim_min - 1, 34, 250);
    let id: i32 = scratch.lakes.len() as i32;
    claim_cells(&mut scratch.lake_id, &basin, id);
    if let Some(out) = spill_out {
        if land[out] != 0 && scratch.lake_id[out] < 0 {
            let e: i32 = elev_code[out] as i32;
            let low: i32 = if e < surface_code + 1 {
                e
            } else {
                surface_code + 1
            };
            elev_code[out] = clamp_i(low, 33, 255) as u8;
        }
    }
    let ghost elev_mid = elev_code@;
    let mut b: usize = 0;
    while b < basin.len()
        invariant
            b <= basin@.len(),
            elev_code@.len() == n * n,
            forall|d: int|
                is_cell(n, d) ==> #[trigger] elev_code@[d] == (if cells.take(b as int).contains(
                    d as i32,
                ) {
                    bed_code(surface_code as int, depth_carve as nat, dist2(n, d, ax as int, az as int))
                } else {
                    elev_mid[d] as int
                }),
        decreases basin@.len() - b,
    {
        let cell: i32 = basin[b];
        assert(is_cell(n, basin@[b as int] as int));
        let d2: i64 = cell_dist2(size, cell, ax, az);
        let root: i32 = depth_root(d2, depth_carve);
        let bed: i32 = surface_code - 2 - (depth_carve - root);
        let ghost before = elev_code@;
        elev_code[cell as usize] = clamp_i(bed, 33, surface_code - 1) as u8;
        proof {
            let then = cells.take(b as int);
            let now = cells.take(b + 1);
            assert forall|d: int| is_cell(n, d) implies #[trigger] elev_code@[d] == (
            if now.contains(d as i32) {
                bed_code(surface_code as int, depth_carve as nat, dist2(n, d, ax as int, az as int))
            } else {
                elev_mid[d] as int
            }) by {
                if then.contains(d as i32) {
                    let j = choose|j: int| 0 <= j < then.len() && then[j] == d as i32;
                    assert(now[j] == d as i32);
                }
                if d == cell {
                    assert(now[b as int] == d as i32);
                } else if now.contains(d as i32) {
                    let j = choose|j: int| 0 <= j < now.len() && now[j] == d as i32;
                    assert(then[j] == d as i32);
                }
                assert(before[d] == (if then.contains(d as i32) {
                    bed_code(
                        surface_code as int,
                        depth_carve as nat,
                        dist2(n, d, ax as int, az as int),
                    )
                } else {
                    elev_mid[d] as int
                }));
            }
        }
        b += 1;
    }
    assert(cells.take(cells.len() as int) =~= cells);
    let lake = Lake {
        id,
        cells: basin,
        spill_cell,
        surface_code,
        surface_z: elevation_to_metres(surface_code),
    };
    scratch.lakes.push(lake);
    proof {
        assert(scratch.lakes@.last() == lake);
        assert forall|d: int| is_cell(n, d) implies #[trigger] elev_code@[d] == elev_after_lake(
            n,
            land@,
            elev0,
            cells,
            ax as int,
            az as int,
            surface_code as int,
            depth_carve as nat,
            choice,
            d,
        ) by {
            if !cells.contains(d as i32) {
                assert(elev_code@[d] == elev_mid[d]);
                if choice is Some {
                    assert(hit(n, cells, rim@, (choice->0).0, (choice->0).1));
                }
            }
        }
        assert(lake_placed(
            n,
            land@,
            scratch0.lake_id@,
            elev0,
            elev_code@,
            cells,
            ax as int,
            az as int,
            depth_carve as nat,
            lake,
            choice,
        ));
        assert forall|i: int| 0 <= i < cells.len() implies scratch0.lake_id@[#[trigger] cells[i] as int]
            < 0 by {
            assert(is_dry(land@, scratch0.lake_id@, cells[i] as int));
        }
        lemma_lake_added(n, &scratch0, scratch, cells);
    }
    true
}

/// The bed of a lake lies below its surface.
pub proof fn law_lake_bed_below_surface(surface: int, depth: nat, d2: int)
    requires
        34 <= surface <= 250,
    ensures
        33 <= bed_code(surface, depth, d2) < surface,
        33 <= hollow_bed(surface) < surface,
{
}

} // verus!
