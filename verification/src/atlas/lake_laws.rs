//! What lakes are like: their water stands below the ground around them and over their bed,
//! and they are looked for where there is room for them.

use crate::atlas::grid::{cell_number, is_cell, step};
use crate::atlas::inland::{hollow_lake, is_coastal, merged_cell};
use crate::atlas::lake_plan::{
    jitter_draw, jittered, lake_collar, lake_step, lake_tried, lakes_wanted, spot_draw, LakePlan,
    LakeSearch, Next,
};
use crate::atlas::lakes::{
    bed_code, beside, elev_after_lake, grows_by, growth_mask, hit, lake_cap, lake_placed,
    low_neighbors, lowest_hit, rim_mask, root_upto, trims_to,
};
use crate::atlas::landmask::{collar_of, edge_distance};
use crate::atlas::types::Lake;
use crate::rng::Draw;
use vstd::prelude::*;

verus! {

/// The water of a placed lake stands below every place of its rim, the sea and the dry land
/// beside it, unless that lies as low as water can stand; it never stands lower than code 34
/// or higher than 250. Its bed lies below it, and outside the basin nothing rises.
pub proof fn law_lakes_fill_their_basin(
    size: int,
    land: Seq<u8>,
    lake_id: Seq<i32>,
    elev: Seq<u8>,
    elev_after: Seq<u8>,
    basin: Seq<i32>,
    ax: int,
    az: int,
    depth: nat,
    lake: Lake,
    choice: Option<(int, int)>,
    i: int,
    k: int,
    c: int,
)
    requires
        lake_placed(
            size,
            land,
            lake_id,
            elev,
            elev_after,
            basin,
            ax,
            az,
            depth,
            lake,
            choice,
        ),
        0 <= i < basin.len(),
        0 <= k < 4,
        is_cell(size, c),
    ensures
        34 <= lake.surface_code <= 250,
        ({
            let rim = step(size, basin[i] as int, k);
            rim is Some && 0 <= rim->0 < size * size && (land[rim->0] == 0 || (lake_id[rim->0] < 0
                && !basin.contains(rim->0 as i32))) ==> lake.surface_code < elev[rim->0]
                || lake.surface_code == 34
        }),
        basin.contains(c as i32) ==> 33 <= elev_after[c] < lake.surface_code,
        !basin.contains(c as i32) ==> elev_after[c] <= elev[c] || elev_after[c] == 33,
        !basin.contains(c as i32) && land[c] == 0 ==> elev_after[c] == elev[c],
        lake.cells@ == basin,
        basin.contains(lake.spill_cell),
{
    let open = rim_mask(size, land, lake_id, basin);
    let rim = step(size, basin[i] as int, k);
    if rim is Some && 0 <= rim->0 < size * size && (land[rim->0] == 0 || (lake_id[rim->0] < 0
        && !basin.contains(rim->0 as i32))) {
        assert(open[rim->0]);
        assert(hit(size, basin, open, i, k));
    }
    assert(elev_after[c] == elev_after_lake(
        size,
        land,
        elev,
        basin,
        ax,
        az,
        lake.surface_code as int,
        depth,
        choice,
        c,
    ));
    assert(basin.contains(basin[0]));
    if choice is Some {
        assert(hit(size, basin, open, (choice->0).0, (choice->0).1));
        assert(basin.contains(basin[(choice->0).0]));
    }
}

/// Water runs out where the rim was lowest: that place ends no more than one code above the
/// surface.
pub proof fn law_lakes_spill_over_their_rim(
    size: int,
    land: Seq<u8>,
    lake_id: Seq<i32>,
    elev: Seq<u8>,
    elev_after: Seq<u8>,
    basin: Seq<i32>,
    ax: int,
    az: int,
    depth: nat,
    lake: Lake,
    choice: Option<(int, int)>,
)
    requires
        lake_placed(
            size,
            land,
            lake_id,
            elev,
            elev_after,
            basin,
            ax,
            az,
            depth,
            lake,
            choice,
        ),
        choice is Some,
        step(size, basin[(choice->0).0] as int, (choice->0).1) is Some,
        is_cell(size, step(size, basin[(choice->0).0] as int, (choice->0).1)->0),
    ensures
        ({
            let out = step(size, basin[(choice->0).0] as int, (choice->0).1)->0;
            &&& lake.spill_cell == basin[(choice->0).0]
            &&& land[out] != 0 && !basin.contains(out as i32) ==> elev_after[out]
                <= lake.surface_code + 1
        }),
{
    let out = step(size, basin[(choice->0).0] as int, (choice->0).1)->0;
    assert(elev_after[out] == elev_after_lake(
        size,
        land,
        elev,
        basin,
        ax,
        az,
        lake.surface_code as int,
        depth,
        choice,
        out,
    ));
}

proof fn lemma_root(d2: int, cap: nat)
    requires
        d2 >= 0,
    ensures
        0 <= root_upto(d2, cap) <= cap,
        root_upto(d2, cap) * root_upto(d2, cap) <= d2,
        root_upto(d2, cap) < cap ==> (root_upto(d2, cap) + 1) * (root_upto(d2, cap) + 1) > d2,
    decreases cap,
{
    if cap > 0 && cap * cap > d2 {
        lemma_root(d2, (cap - 1) as nat);
    }
}

/// A lake is deepest in the middle: a cell farther out never has the lower bed, and in the
/// middle the bed lies two codes and the depth below the surface, where there is room.
pub proof fn law_lakes_are_deepest_in_the_middle(surface: int, depth: nat, near: int, far: int)
    requires
        34 <= surface <= 250,
        0 <= near <= far,
    ensures
        bed_code(surface, depth, near) <= bed_code(surface, depth, far),
        surface - 2 - depth >= 33 ==> bed_code(surface, depth, 0) == surface - 2 - depth,
        depth * depth <= far && surface >= 35 ==> bed_code(surface, depth, far) == surface - 2,
{
    lemma_root(near, depth);
    lemma_root(far, depth);
    lemma_root(0, depth);
    let (a, b) = (root_upto(near, depth), root_upto(far, depth));
    if a > b {
        assert((b + 1) * (b + 1) <= a * a) by (nonlinear_arith)
            requires
                0 <= b,
                b + 1 <= a,
        ;
    }
    let z = root_upto(0, depth);
    assert(z == 0) by {
        if z > 0 {
            assert(z * z > 0) by (nonlinear_arith)
                requires
                    z > 0,
            ;
        }
    }
    if depth * depth <= far && b < depth {
        assert((b + 1) * (b + 1) <= depth * depth) by (nonlinear_arith)
            requires
                0 <= b,
                b + 1 <= depth,
        ;
    }
}

/// The water of a lake on a cut-off sea stands below all dry land beside it, unless that lies
/// as low as water can stand.
pub proof fn law_hollow_lakes_lie_below_their_shore(
    size: int,
    land: Seq<u8>,
    lake_id: Seq<i32>,
    elev: Seq<u8>,
    lake: Lake,
    choice: Option<(int, int)>,
    i: int,
    k: int,
)
    requires
        hollow_lake(size, land, lake_id, elev, lake, choice),
        0 <= i < lake.cells@.len(),
        0 <= k < 4,
    ensures
        34 <= lake.surface_code <= 250,
        lake.cells@.contains(lake.spill_cell),
        ({
            let shore = step(size, lake.cells@[i] as int, k);
            shore is Some && 0 <= shore->0 < size * size && land[shore->0] != 0
                && lake_id[shore->0] < 0 ==> lake.surface_code < elev[shore->0] || lake.surface_code
                == 34
        }),
{
    let open = crate::atlas::lakes::dry_mask(size, land, lake_id);
    let shore = step(size, lake.cells@[i] as int, k);
    if shore is Some && 0 <= shore->0 < size * size && land[shore->0] != 0 && lake_id[shore->0] < 0 {
        assert(open[shore->0]);
        assert(hit(size, lake.cells@, open, i, k));
    }
    assert(lake.cells@.contains(lake.cells@[0]));
    if choice is Some {
        assert(hit(size, lake.cells@, open, (choice->0).0, (choice->0).1));
        assert(lake.cells@.contains(lake.cells@[(choice->0).0]));
    }
}

/// A basin grows over dry land beside it that is no higher than the cap, and over none that
/// lies higher than another it could grow over.
pub proof fn law_basins_grow_over_the_lowest(
    size: int,
    land: Seq<u8>,
    elev: Seq<u8>,
    lake_id: Seq<i32>,
    max_elev: int,
    basin: Seq<i32>,
    next: i32,
    i: int,
    k: int,
)
    requires
        grows_by(size, land, elev, lake_id, max_elev, basin, next),
        0 <= next < size * size,
        0 <= i < basin.len(),
        0 <= k < 4,
    ensures
        land[next as int] != 0,
        lake_id[next as int] < 0,
        elev[next as int] <= max_elev,
        !basin.contains(next),
        exists|j: int, l: int|
            0 <= j < basin.len() && 0 <= l < 4 && #[trigger] step(size, basin[j] as int, l) == Some(
                next as int,
            ),
        ({
            let other = step(size, basin[i] as int, k);
            other is Some && 0 <= other->0 < size * size && land[other->0] != 0 && lake_id[other->0]
                < 0 && elev[other->0] <= max_elev && !basin.contains(other->0 as i32)
                ==> elev[next as int] <= elev[other->0]
        }),
{
    let open = growth_mask(size, land, elev, lake_id, max_elev, basin);
    let (j, l) = choose|j: int, l: int|
        #[trigger] lowest_hit(size, basin, open, elev, j, l) && step(size, basin[j] as int, l)
            == Some(next as int);
    assert(open[next as int]);
    assert(step(size, basin[j] as int, l) == Some(next as int));
    let other = step(size, basin[i] as int, k);
    if other is Some && 0 <= other->0 < size * size && land[other->0] != 0 && lake_id[other->0] < 0
        && elev[other->0] <= max_elev && !basin.contains(other->0 as i32) {
        assert(open[other->0]);
        assert(hit(size, basin, open, i, k));
    }
}

/// What a trimmed basin keeps next lies in the basin beside what is kept, and ranks no higher
/// than anything else that does.
pub proof fn law_trimming_keeps_the_best_ranked(
    size: int,
    basin: Seq<i32>,
    rank: Seq<u32>,
    kept: Seq<i32>,
    next: i32,
    other: int,
)
    requires
        trims_to(size, basin, rank, kept, next),
    ensures
        basin.contains(next),
        !kept.contains(next),
        beside(size, basin, kept, other) ==> rank[next as int] <= rank[other],
{
}

/// A lake that meets the sea becomes sea, no higher than code 32; every other cell keeps its
/// ground, and a lake that lies inland stays a lake.
pub proof fn law_coastal_lakes_become_sea(
    size: int,
    land: Seq<u8>,
    elev: Seq<u8>,
    lake_id: Seq<i32>,
    lakes: Seq<Lake>,
    c: int,
    land_now: u8,
    elev_now: u8,
    id_now: i32,
)
    requires
        merged_cell(
            size,
            land,
            elev,
            lake_id,
            lakes,
            lakes.len() as int,
            c,
            land_now,
            elev_now,
            id_now,
        ),
        lake_id[c] < lakes.len(),
    ensures
        lake_id[c] >= 0 && is_coastal(size, land, lake_id, lakes, lake_id[c] as int) ==> land_now
            == 0 && id_now < 0 && elev_now <= 32 && elev_now <= elev[c],
        lake_id[c] < 0 || !is_coastal(size, land, lake_id, lakes, lake_id[c] as int) ==> land_now
            == land[c] && elev_now == elev[c],
        lake_id[c] < 0 ==> id_now == lake_id[c],
{
}

/// A lake covers a ninetieth of the continent at the most, and whatever that comes to no more
/// than 450 cells; 48 it always may.
pub proof fn law_lakes_have_a_most(size: int)
    requires
        size >= 0,
    ensures
        48 <= lake_cap(size) <= 450,
        lake_cap(size) > 48 ==> 90 * lake_cap(size) <= size * size,
        lake_cap(size) < 450 ==> size * size < 90 * lake_cap(size) + 90,
{
    assert(size * size >= 0) by (nonlinear_arith);
}

/// How lakes are planned: four at least and twenty-two to the thousand cells of a side; ten
/// cells at least from one place of the raster to the next; and off the collar.
pub proof fn law_lakes_are_planned_by_the_side(size: int)
    requires
        5 <= size <= 46340,
    ensures
        lakes_wanted(size) >= 4,
        lakes_wanted(size) > 4 ==> 1000 * lakes_wanted(size) <= 22 * size,
        22 * size < 1000 * lakes_wanted(size) + 1000,
        lake_step(size) >= 10,
        lake_step(size) > 10 ==> lake_step(size) * lakes_wanted(size) <= size,
        0 < lake_collar(size),
        2 * lake_collar(size) < size,
        size >= 24 && collar_of(size) + 4 < size / 2 ==> lake_collar(size) == collar_of(size) + 4,
{
    let w = lakes_wanted(size);
    vstd::arithmetic::div_mod::lemma_fundamental_div_mod(size, w);
    assert((size / w) * w == w * (size / w)) by (nonlinear_arith);
}

/// A lake is tried in every hollow, and elsewhere at thirty-five draws in a hundred.
pub proof fn law_lakes_are_tried(low: bool, draw: int)
    ensures
        lake_tried(low, draw) <==> low || 100 * draw <= 35 * 0x100_0000,
{
}

/// Places of the raster are moved by a third of its step at the most, and stay off the
/// collar; places beyond the raster are drawn off the collar too.
pub proof fn law_lakes_stay_off_the_collar(p: LakePlan, at: int, draw: int)
    requires
        0 < p.collar,
        2 * p.collar < p.size,
    ensures
        p.collar <= jittered(p, at, draw) < p.size - p.collar,
        p.collar <= at + draw < p.size - p.collar ==> jittered(p, at, draw) == at + draw,
        spot_draw(p) == (Draw::Signed { lo: p.collar, hi: (p.size - p.collar) as i32 }),
        jitter_draw(p) is Signed && 0 <= p.step <= 100_000 ==> 3 * jitter_draw(p)->lo <= 0 && -p.step
            <= 3 * jitter_draw(p)->lo && 3 * (jitter_draw(p)->Signed_hi - 1) <= p.step,
{
}

/// The search for lakes ends once enough were found. It walks the raster first, and then
/// draws four places to a cell of the side at the most.
pub proof fn law_lake_searches_end(s: LakeSearch, p: LakePlan, lakes: int)
    requires
        0 < p.step <= 100_000,
        0 < p.collar <= 46340,
        0 < p.size <= 46340,
        0 <= s.ax <= 1_000_000,
        0 <= s.az <= 1_000_000,
        0 <= s.scans <= 1_000_000,
    ensures
        lakes >= p.want ==> s.next_of(p, lakes) == Next::Done,
        s.next_of(p, lakes) == Next::Done ==> lakes >= p.want || s.scans >= 4 * p.size,
        s.next_of(p, lakes) == Next::Random ==> s.moved(p, Next::Random).scans == s.scans + 1
            && s.scans < 4 * p.size,
        s.next_of(p, lakes) == Next::Raster ==> s.ax < p.size - p.collar,
        ({
            let t = s.moved(p, Next::Raster);
            t.scans == s.scans && (t.ax == s.ax && t.az == s.az + p.step && t.az < p.size - p.collar
                || t.ax == s.ax + p.step && t.az == p.collar + p.step / 2)
        }),
{
}

/// A hollow is a cell with two land cells around it that are no higher, at the most: land
/// that rises does not unmake one, and land that sinks does not make one.
pub proof fn law_hollows_lie_low(
    size: int,
    land: Seq<u8>,
    elev: Seq<u8>,
    higher: Seq<u8>,
    ax: int,
    az: int,
    n: nat,
)
    requires
        n <= 8,
        higher[cell_number(size, ax, az)] == elev[cell_number(size, ax, az)],
        forall|c: int| elev[c] <= #[trigger] higher[c],
    ensures
        0 <= low_neighbors(size, land, higher, ax, az, n) <= low_neighbors(
            size,
            land,
            elev,
            ax,
            az,
            n,
        ) <= n,
    decreases n,
{
    if n > 0 {
        law_hollows_lie_low(size, land, elev, higher, ax, az, (n - 1) as nat);
    }
}

/// The collar takes forty-eight cells to the thousand and six at least. A cell on the side of
/// the grid lies no cells from it, and no cell lies farther from it than half the side.
pub proof fn law_collars_and_edges(size: int, ax: int, az: int)
    requires
        size > 0,
    ensures
        collar_of(size) > 6 ==> 1000 * collar_of(size) <= 48 * size,
        48 * size < 1000 * collar_of(size) + 1000,
        0 <= ax < size && 0 <= az < size ==> 0 <= edge_distance(size, ax, az) <= (size - 1) / 2,
        edge_distance(size, ax, az) <= ax,
        edge_distance(size, ax, az) <= az,
        edge_distance(size, ax, az) <= size - 1 - ax,
        edge_distance(size, ax, az) <= size - 1 - az,
        edge_distance(size, ax, az) == ax || edge_distance(size, ax, az) == az || edge_distance(
            size,
            ax,
            az,
        ) == size - 1 - ax || edge_distance(size, ax, az) == size - 1 - az,
{
}

} // verus!
