//! Water cut off from the sea becomes lakes, lakes that meet the sea become
//! sea, and the dry land falls into numbered landmasses.

use crate::atlas::grid::{
    adjacent, cell_list, gather_part, is_cell, is_part, joined, neighbor, on_border, reach_from,
    settled, side_ok, step, lemma_cell_coords, lemma_distinct_len, lemma_joined_ends,
    lemma_joined_induction, lemma_joined_self, lemma_joined_step, lemma_joined_symmetric,
    lemma_joined_transitive, lemma_settled_holds, lemma_side, lemma_step,
};
use crate::atlas::lakes::{
    claim_cells, dry_mask, hit, hit_elev, hollow_bed, is_dry, is_sea, lowest_around, lowest_hit,
    rim_choice, rim_level, sea_mask, spill_of, surface_below, with_lake, LakeScratch,
    lemma_lake_added, lemma_lake_room,
};
use crate::atlas::pack::{clamp_i, clamped, code_metres, elevation_to_metres};
use crate::atlas::types::Lake;
use vstd::prelude::*;

verus! {

/// Sea that a walk over sea cells joins to the edge of the map.
pub open spec fn is_open_sea(size: int, land: Seq<u8>, lake_id: Seq<i32>, c: int) -> bool {
    exists|b: int|
        is_cell(size, b) && on_border(size, b) && #[trigger] joined(
            size,
            sea_mask(size, land, lake_id),
            b,
            c,
        )
}

/// Sea that is cut off from the edge of the map.
pub open spec fn inland_sea_mask(size: int, land: Seq<u8>, lake_id: Seq<i32>) -> Seq<bool> {
    Seq::new(
        (size * size) as nat,
        |c: int| is_sea(land, lake_id, c) && !is_open_sea(size, land, lake_id, c),
    )
}

/// A lake on a cut-off sea, its water just below the lowest dry place around it.
pub open spec fn hollow_lake(
    size: int,
    land: Seq<u8>,
    lake_id: Seq<i32>,
    elev: Seq<u8>,
    lake: Lake,
    choice: Option<(int, int)>,
) -> bool {
    &&& rim_choice(size, lake.cells@, dry_mask(size, land, lake_id), elev, choice)
    &&& lake.spill_cell == spill_of(lake.cells@, choice)
    &&& lake.surface_code == surface_below(
        rim_level(
            size,
            lake.cells@,
            elev,
            choice,
            clamped(elev[lake.cells@[0] as int] + 8, 40, 180),
        ),
    )
    &&& lake.surface_z == code_metres(lake.surface_code as int)
}

/// A lake on a cut-off sea, wherever its rim is lowest.
pub open spec fn is_hollow_lake(
    size: int,
    land: Seq<u8>,
    lake_id: Seq<i32>,
    elev: Seq<u8>,
    lake: Lake,
) -> bool {
    exists|choice: Option<(int, int)>| #[trigger]
        hollow_lake(size, land, lake_id, elev, lake, choice)
}

/// Turns one cut-off sea into a lake.
#[verifier::loop_isolation(false)]
fn commit_inland_sea_as_lake(
    size: usize,
    basin: Vec<i32>,
    land: &[u8],
    elev_code: &mut [u8],
    scratch: &mut LakeScratch,
)
    requires
        side_ok(size as int),
        land@.len() == size * size,
        old(elev_code)@.len() == size * size,
        old(scratch).well_formed(size as int),
        cell_list(size as int, basin@),
        basin@.len() > 0,
        forall|i: int|
            0 <= i < basin@.len() ==> is_sea(
                land@,
                old(scratch).lake_id@,
                #[trigger] basin@[i] as int,
            ),
    ensures
        final(scratch).well_formed(size as int),
        final(scratch).lakes@.len() == old(scratch).lakes@.len() + 1,
        forall|i: int|
            0 <= i < old(scratch).lakes@.len() ==> #[trigger] final(scratch).lakes@[i] == old(scratch).lakes@[i],
        final(scratch).lakes@.last().cells@ == basin@,
        final(scratch).lake_id@ == with_lake(
            old(scratch).lake_id@,
            basin@,
            old(scratch).lakes@.len() as i32,
        ),
        is_hollow_lake(
            size as int,
            land@,
            old(scratch).lake_id@,
            old(elev_code)@,
            final(scratch).lakes@.last(),
        ),
        final(elev_code)@ == Seq::new(
            old(elev_code)@.len(),
            |c: int|
                if basin@.contains(c as i32) {
                    hollow_bed(final(scratch).lakes@.last().surface_code as int) as u8
                } else {
                    old(elev_code)@[c]
                },
        ),
{
    let ghost n = size as int;
    let ghost elev0 = elev_code@;
    let ghost scratch0 = *scratch;
    let ghost cells = basin@;
    proof {
        lemma_side(n);
        assert forall|i: int| 0 <= i < basin@.len() implies 0 <= #[trigger] basin@[i] < n * n by {
            assert(is_cell(n, basin@[i] as int));
        }
        assert(is_sea(land@, scratch0.lake_id@, basin@[0] as int));
        lemma_lake_room(n, &scratch0, basin@[0]);
    }
    let count: usize = size * size;
    let mut rim: Vec<bool> = Vec::new();
    let mut c: usize = 0;
    while c < count
        invariant
            c <= count,
            rim@.len() == c,
            forall|d: int|
                0 <= d < c ==> #[trigger] rim@[d] == is_dry(land@, scratch0.lake_id@, d),
        decreases count - c,
    {
        rim.push(land[c] != 0 && scratch.lake_id[c] < 0);
        c += 1;
    }
    assert(rim@ =~= dry_mask(n, land@, scratch0.lake_id@));
    let lowest: Option<(usize, usize)> = lowest_around(size, &basin, &rim, elev_code);
    let ghost choice: Option<(int, int)> = match lowest {
        Some(at) => Some((at.0 as int, at.1 as int)),
        None => None,
    };
    let mut spill_cell: i32 = basin[0];
    let mut rim_min: i32 = clamp_i(elev_code[basin[0] as usize] as i32 + 8, 40, 180);
    if let Some((i, k)) = lowest {
        assert(hit(n, cells, rim@, i as int, k as int));
        assert(is_cell(n, basin@[i as int] as int));
        spill_cell = basin[i];
        let out: usize = neighbor(size, basin[i] as usize, k).unwrap();
        rim_min = elev_code[out] as i32;
    }
    let surface_code: i32 = clamp_i(rim_min - 1, 34, 250);
    let id: i32 = scratch.lakes.len() as i32;
    let depth: i32 = clamp_i(surface_code - 34, 2, 12);
    let bed: u8 = clamp_i(surface_code - depth, 33, surface_code - 1) as u8;
    claim_cells(&mut scratch.lake_id, &basin, id);
    let mut b: usize = 0;
    while b < basin.len()
        invariant
            b <= basin@.len(),
            elev_code@.len() == n * n,
            forall|d: int|
                is_cell(n, d) ==> #[trigger] elev_code@[d] == (if cells.take(b as int).contains(
                    d as i32,
                ) {
                    bed
                } else {
                    elev0[d]
                }),
        decreases basin@.len() - b,
    {
        let ghost before = elev_code@;
        let cell: usize = basin[b] as usize;
        elev_code[cell] = bed;
        proof {
            let then = cells.take(b as int);
            let now = cells.take(b + 1);
            assert forall|d: int| is_cell(n, d) implies #[trigger] elev_code@[d] == (
            if now.contains(d as i32) {
                bed
            } else {
                elev0[d]
            }) by {
                if then.contains(d as i32) {
                    let j = choose|j: int| 0 <= j < then.len() && then[j] == d as i32;
                    assert(now[j] == d as i32);
                }
                if d == cell {
                    assert(now[b as int] == d as i32);
                } else if now.contains(d as i32) {
                    let j = choose|j: int| 0 <= j < now.len() && now[j] == d as i32;
                    assert(then[j] == d as i32);
                }
                assert(before[d] == (if then.contains(d as i32) {
                    bed
                } else {
                    elev0[d]
                }));
            }
        }
        b += 1;
    }
    assert(cells.take(cells.len() as int) =~= cells);
    let lake = Lake {
        id,
        cells: basin,
        spill_cell,
        surface_code,
        surface_z: elevation_to_metres(surface_code),
    };
    scratch.lakes.push(lake);
    proof {
        assert(hollow_lake(n, land@, scratch0.lake_id@, elev0, lake, choice));
        assert forall|i: int| 0 <= i < cells.len() implies scratch0.lake_id@[#[trigger] cells[i] as int]
            < 0 by {
            assert(is_sea(land@, scratch0.lake_id@, cells[i] as int));
        }
        lemma_lake_added(n, &scratch0, scratch, cells);
        assert(elev_code@ =~= Seq::new(
            elev0.len(),
            |c: int|
                if cells.contains(c as i32) {
                    hollow_bed(lake.surface_code as int) as u8
                } else {
                    elev0[c]
                },
        ));
    }
}

/// The sea cells on the outer ring of the map.
#[verifier::loop_isolation(false)]
pub(crate) fn border_seeds(size: usize, sea: &Vec<bool>) -> (r: Vec<usize>)
    requires
        side_ok(size as int),
        sea@.len() == size * size,
    ensures
        forall|i: int|
            0 <= i < r@.len() ==> is_cell(size as int, #[trigger] r@[i] as int)
                && sea@[r@[i] as int] && on_border(size as int, r@[i] as int),
        forall|c: int|
            is_cell(size as int, c) && sea@[c] && #[trigger] on_border(size as int, c)
                ==> r@.contains(c as usize),
{
    let ghost n = size as int;
    proof {
        lemma_side(n);
    }
    let count: usize = size * size;
    let mut r: Vec<usize> = Vec::new();
    let mut c: usize = 0;
    while c < count
        invariant
            c <= count,
            forall|i: int|
                0 <= i < r@.len() ==> is_cell(n, #[trigger] r@[i] as int) && sea@[r@[i] as int]
                    && on_border(n, r@[i] as int),
            forall|d: int|
                0 <= d < c && sea@[d] && #[trigger] on_border(n, d) ==> r@.contains(d as usize),
        decreases count - c,
    {
        let ax: usize = c % size;
        let az: usize = c / size;
        proof {
            lemma_cell_coords(n, c as int);
        }
        let ghost before = r@;
        if (ax == 0 || az == 0 || ax + 1 == size || az + 1 == size) && sea[c] {
            r.push(c);
            assert(r@[before.len() as int] == c);
        }
        proof {
            assert forall|d: int|
                0 <= d < c + 1 && sea@[d] && #[trigger] on_border(n, d) implies r@.contains(
                d as usize,
            ) by {
                if d < c {
                    let j = choose|j: int| 0 <= j < before.len() && before[j] == d as usize;
                    assert(r@[j] == d as usize);
                }
            }
        }
        c += 1;
    }
    r
}

/// Water cells not reachable from the atlas border via open sea become lakes.
///
/// The land mask can leave enclosed water inland; without this step it counts as
/// sea and grows coasts.
#[verifier::loop_isolation(false)]
pub fn promote_inland_seas_to_lakes(
    size: usize,
    land: &[u8],
    elev_code: &mut [u8],
    scratch: &mut LakeScratch,
)
    requires
        side_ok(size as int),
        land@.len() == size * size,
        old(elev_code)@.len() == size * size,
        old(scratch).well_formed(size as int),
    ensures
        final(scratch).well_formed(size as int),
        old(scratch).lakes@.len() <= final(scratch).lakes@.len(),
        forall|i: int|
            0 <= i < old(scratch).lakes@.len() ==> #[trigger] final(scratch).lakes@[i] == old(scratch).lakes@[i],
        forall|j: int|
            #![trigger final(scratch).lakes@[j]]
            old(scratch).lakes@.len() <= j < final(scratch).lakes@.len() ==> {
                &&& is_part(
                    size as int,
                    inland_sea_mask(size as int, land@, old(scratch).lake_id@),
                    final(scratch).lakes@[j].cells@[0] as int,
                    final(scratch).lakes@[j].cells@,
                )
                &&& is_hollow_lake(
                    size as int,
                    land@,
                    old(scratch).lake_id@,
                    old(elev_code)@,
                    final(scratch).lakes@[j],
                )
            },
        forall|j: int, i: int|
            #![trigger final(scratch).lakes@[j].cells@[i]]
            old(scratch).lakes@.len() <= j < final(scratch).lakes@.len() && 0 <= i < final(scratch).lakes@[j].cells@.len() ==> final(scratch).lakes@[j].cells@[0] <= final(scratch).lakes@[j].cells@[i],
        forall|j: int, l: int|
            #![trigger final(scratch).lakes@[j], final(scratch).lakes@[l]]
            old(scratch).lakes@.len() <= j < l < final(scratch).lakes@.len() ==> final(scratch).lakes@[j].cells@[0] < final(scratch).lakes@[l].cells@[0],
        forall|c: int|
            is_cell(size as int, c) ==> {
                if inland_sea_mask(size as int, land@, old(scratch).lake_id@)[c] {
                    #[trigger] final(scratch).lake_id@[c] >= old(scratch).lakes@.len()
                } else {
                    final(scratch).lake_id@[c] == old(scratch).lake_id@[c]
                }
            },
        final(elev_code)@.len() == size * size,
        forall|c: int|
            is_cell(size as int, c) ==> #[trigger] final(elev_code)@[c] == (if inland_sea_mask(
                size as int,
                land@,
                old(scratch).lake_id@,
            )[c] {
                hollow_bed(
                    final(scratch).lakes@[final(scratch).lake_id@[c] as int].surface_code as int,
                )
            } else {
                old(elev_code)@[c] as int
            }),
{
    let ghost n = size as int;
    let ghost elev0 = elev_code@;
    let ghost scratch0 = *scratch;
    let ghost id0 = scratch.lake_id@;
    let ghost inland = inland_sea_mask(n, land@, id0);
    let ghost sea_g = sea_mask(n, land@, id0);
    let ghost old_len = scratch.lakes@.len() as int;
    proof {
        lemma_side(n);
    }
    let count: usize = size * size;
    let mut sea: Vec<bool> = Vec::new();
    let mut c: usize = 0;
    while c < count
        invariant
            c <= count,
            sea@.len() == c,
            forall|d: int| 0 <= d < c ==> #[trigger] sea@[d] == is_sea(land@, id0, d),
        decreases count - c,
    {
        sea.push(land[c] == 0 && scratch.lake_id[c] < 0);
        c += 1;
    }
    assert(sea@ =~= sea_g);
    let seeds: Vec<usize> = border_seeds(size, &sea);
    let ocean: Vec<bool> = reach_from(size, &sea, &seeds);
    let mut cut_off: Vec<bool> = Vec::new();
    c = 0;
    while c < count
        invariant
            c <= count,
            cut_off@.len() == c,
            forall|d: int| 0 <= d < c ==> #[trigger] cut_off@[d] == (sea@[d] && !ocean@[d]),
        decreases count - c,
    {
        cut_off.push(sea[c] && !ocean[c]);
        c += 1;
    }
    proof {
        assert forall|d: int| 0 <= d < n * n implies cut_off@[d] == inland[d] by {
            assert(ocean@[d] <==> is_open_sea(n, land@, id0, d)) by {
                if ocean@[d] {
                    let i = choose|i: int|
                        0 <= i < seeds@.len() && joined(n, sea@, #[trigger] seeds@[i] as int, d);
                    assert(joined(n, sea_g, seeds@[i] as int, d));
                }
                if is_open_sea(n, land@, id0, d) {
                    let b = choose|b: int|
                        is_cell(n, b) && on_border(n, b) && #[trigger] joined(n, sea_g, b, d);
                    lemma_joined_ends(n, sea_g, b, d);
                    assert(seeds@.contains(b as usize));
                    let i = choose|i: int| 0 <= i < seeds@.len() && seeds@[i] == b as usize;
                    assert(joined(n, sea@, seeds@[i] as int, d));
                }
            }
        }
        assert(cut_off@ =~= inland);
    }
    let mut seen: Vec<bool> = vec![false; count];
    let mut start: usize = 0;
    while start < count
        invariant
            start <= count,
            seen@.len() == n * n,
            settled(n, inland, seen@),
            scratch.well_formed(n),
            old_len <= scratch.lakes@.len(),
            elev_code@.len() == n * n,
            forall|i: int|
                0 <= i < old_len ==> #[trigger] scratch.lakes@[i] == scratch0.lakes@[i],
            forall|j: int|
                #![trigger scratch.lakes@[j]]
                old_len <= j < scratch.lakes@.len() ==> {
                    &&& is_part(
                        n,
                        inland,
                        scratch.lakes@[j].cells@[0] as int,
                        scratch.lakes@[j].cells@,
                    )
                    &&& is_hollow_lake(n, land@, id0, elev0, scratch.lakes@[j])
                    &&& scratch.lakes@[j].cells@[0] < start
                },
            forall|j: int, i: int|
                #![trigger scratch.lakes@[j].cells@[i]]
                old_len <= j < scratch.lakes@.len() && 0 <= i < scratch.lakes@[j].cells@.len()
                    ==> scratch.lakes@[j].cells@[0] <= scratch.lakes@[j].cells@[i],
            forall|j: int, l: int|
                #![trigger scratch.lakes@[j], scratch.lakes@[l]]
                old_len <= j < l < scratch.lakes@.len() ==> scratch.lakes@[j].cells@[0]
                    < scratch.lakes@[l].cells@[0],
            forall|d: int| 0 <= d < start && inland[d] ==> #[trigger] seen@[d],
            forall|d: int| is_cell(n, d) && #[trigger] seen@[d] ==> inland[d],
            forall|d: int|
                #![trigger scratch.lake_id@[d]]
                is_cell(n, d) ==> if seen@[d] {
                    old_len <= scratch.lake_id@[d]
                } else {
                    scratch.lake_id@[d] == id0[d]
                },
            forall|d: int|
                #![trigger elev_code@[d]]
                is_cell(n, d) ==> elev_code@[d] == (if seen@[d] {
                    hollow_bed(scratch.lakes@[scratch.lake_id@[d] as int].surface_code as int)
                } else {
                    elev0[d] as int
                }),
        decreases count - start,
    {
        if cut_off[start] && !seen[start] {
            let ghost seen_b = seen@;
            let ghost scratch_b = *scratch;
            let ghost elev_b = elev_code@;
            let basin: Vec<i32> = gather_part(size, &cut_off, start, &mut seen);
            let ghost cells = basin@;
            proof {
                assert forall|i: int| 0 <= i < cells.len() implies is_sea(
                    land@,
                    scratch_b.lake_id@,
                    #[trigger] cells[i] as int,
                ) && !seen_b[cells[i] as int] && inland[cells[i] as int] by {
                    assert(joined(n, inland, start as int, cells[i] as int));
                    lemma_joined_ends(n, inland, start as int, cells[i] as int);
                    if seen_b[cells[i] as int] {
                        lemma_joined_symmetric(n, inland, start as int, cells[i] as int);
                        lemma_settled_holds(n, inland, seen_b, cells[i] as int, start as int);
                    }
                    assert(scratch_b.lake_id@[cells[i] as int] == id0[cells[i] as int]);
                }
                assert forall|i: int| 0 <= i < cells.len() implies cells[0] <= #[trigger] cells[i] by {
                    assert(!seen_b[cells[i] as int] && inland[cells[i] as int]);
                }
            }
            commit_inland_sea_as_lake(size, basin, land, elev_code, scratch);
            proof {
                let lake = scratch.lakes@.last();
                assert(dry_mask(n, land@, scratch_b.lake_id@) =~= dry_mask(n, land@, id0)) by {
                    assert forall|d: int| is_cell(n, d) implies is_dry(land@, scratch_b.lake_id@, d)
                        == is_dry(land@, id0, d) by {
                        assert(scratch_b.lake_id@[d] == scratch_b.lake_id@[d]);
                        if seen_b[d] {
                            assert(inland[d]);
                        }
                    }
                }
                let choice = choose|choice: Option<(int, int)>| #[trigger]
                    hollow_lake(n, land@, scratch_b.lake_id@, elev_b, lake, choice);
                assert(hollow_lake(n, land@, id0, elev0, lake, choice)) by {
                    let dry = dry_mask(n, land@, id0);
                    assert forall|j: int, l: int| #[trigger] hit(n, cells, dry, j, l) implies hit_elev(
                        n,
                        cells,
                        elev_b,
                        j,
                        l,
                    ) == hit_elev(n, cells, elev0, j, l) by {
                        lemma_step(n, cells[j] as int, l);
                        let d = step(n, cells[j] as int, l)->0;
                        assert(is_dry(land@, id0, d));
                        assert(elev_b[d] == elev_b[d]);
                        if seen_b[d] {
                            assert(inland[d]);
                        }
                    }
                    assert(!seen_b[cells[0] as int]);
                    assert(elev_b[cells[0] as int] == elev0[cells[0] as int]);
                    if choice is Some {
                        assert(hit(n, cells, dry, (choice->0).0, (choice->0).1));
                        assert(lowest_hit(n, cells, dry, elev0, (choice->0).0, (choice->0).1));
                    }
                }
                assert(is_hollow_lake(n, land@, id0, elev0, lake));
                assert forall|d: int| is_cell(n, d) implies (#[trigger] seen@[d] <==> seen_b[d]
                    || cells.contains(d as i32)) by {
                    if cells.contains(d as i32) {
                        let i = choose|i: int| 0 <= i < cells.len() && cells[i] == d as i32;
                        assert(joined(n, inland, start as int, cells[i] as int));
                    }
                    if joined(n, inland, start as int, d) {
                        assert(cells.contains(d as i32));
                    }
                }
                assert forall|d: int| is_cell(n, d) implies if #[trigger] seen@[d] {
                    &&& inland[d]
                    &&& old_len <= scratch.lake_id@[d]
                    &&& elev_code@[d] == hollow_bed(
                        scratch.lakes@[scratch.lake_id@[d] as int].surface_code as int,
                    )
                } else {
                    &&& scratch.lake_id@[d] == id0[d]
                    &&& elev_code@[d] == elev0[d]
                } by {
                    assert(scratch_b.lake_id@[d] == scratch_b.lake_id@[d]);
                    assert(elev_b[d] == elev_b[d]);
                    if cells.contains(d as i32) {
                        let i = choose|i: int| 0 <= i < cells.len() && cells[i] == d as i32;
                        assert(inland[cells[i] as int]);
                        assert(34 <= lake.surface_code <= 250);
                    } else if seen_b[d] {
                        assert(scratch.lakes@[scratch_b.lake_id@[d] as int]
                            == scratch_b.lakes@[scratch_b.lake_id@[d] as int]);
                    }
                }
                assert(seen@[start as int]) by {
                    lemma_joined_self(n, inland, start as int);
                }
                assert forall|d: int| 0 <= d < start + 1 && inland[d] implies #[trigger] seen@[d] by {
                    if d < start {
                        assert(seen_b[d]);
                    }
                }
            }
        }
        start += 1;
    }
}


/// A listed cell lies on the edge of the map or beside the sea.
pub open spec fn touches_sea(size: int, land: Seq<u8>, lake_id: Seq<i32>, cells: Seq<i32>) -> bool {
    exists|i: int, k: int|
        #![trigger step(size, cells[i] as int, k)]
        0 <= i < cells.len() && 0 <= k < 4 && match step(size, cells[i] as int, k) {
            Some(c) => is_sea(land, lake_id, c),
            None => true,
        }
}

/// A listed cell lies beside a cell of lake `other`.
pub open spec fn touches_lake(size: int, lake_id: Seq<i32>, cells: Seq<i32>, other: int) -> bool {
    exists|i: int, k: int|
        #![trigger step(size, cells[i] as int, k)]
        0 <= i < cells.len() && 0 <= k < 4 && match step(size, cells[i] as int, k) {
            Some(c) => lake_id[c] == other,
            None => false,
        }
}

/// Lakes from the sea inland, each beside the one before it.
pub open spec fn sea_chain(
    size: int,
    land: Seq<u8>,
    lake_id: Seq<i32>,
    lakes: Seq<Lake>,
    p: Seq<int>,
) -> bool {
    &&& p.len() > 0
    &&& forall|t: int| 0 <= t < p.len() ==> 0 <= #[trigger] p[t] < lakes.len()
    &&& touches_sea(size, land, lake_id, lakes[p[0]].cells@)
    &&& forall|t: int|
        0 < t < p.len() ==> touches_lake(
            size,
            lake_id,
            lakes[#[trigger] p[t]].cells@,
            p[t - 1],
        )
}

/// A lake whose water meets the sea, directly or through other lakes.
pub open spec fn is_coastal(
    size: int,
    land: Seq<u8>,
    lake_id: Seq<i32>,
    lakes: Seq<Lake>,
    i: int,
) -> bool {
    exists|p: Seq<int>| #[trigger]
        sea_chain(size, land, lake_id, lakes, p) && p.last() == i
}

/// How many of the first `n` lakes do not meet the sea.
pub open spec fn kept_below(
    size: int,
    land: Seq<u8>,
    lake_id: Seq<i32>,
    lakes: Seq<Lake>,
    n: nat,
) -> int
    decreases n,
{
    if n == 0 {
        0
    } else {
        kept_below(size, land, lake_id, lakes, (n - 1) as nat) + if is_coastal(
            size,
            land,
            lake_id,
            lakes,
            n - 1,
        ) {
            0int
        } else {
            1int
        }
    }
}

spec fn count_marked(s: Seq<bool>) -> int
    decreases s.len(),
{
    if s.len() == 0 {
        0
    } else {
        count_marked(s.drop_last()) + if s.last() {
            1int
        } else {
            0int
        }
    }
}

proof fn lemma_count_marked(s: Seq<bool>, i: int)
    requires
        0 <= i < s.len(),
        !s[i],
    ensures
        count_marked(s.update(i, true)) == count_marked(s) + 1,
    decreases s.len(),
{
    let t = s.update(i, true);
    if i == s.len() - 1 {
        assert(t.drop_last() =~= s.drop_last());
    } else {
        assert(t.drop_last() =~= s.drop_last().update(i, true));
        lemma_count_marked(s.drop_last(), i);
    }
}

proof fn lemma_count_bound(s: Seq<bool>)
    ensures
        0 <= count_marked(s) <= s.len(),
    decreases s.len(),
{
    if s.len() > 0 {
        lemma_count_bound(s.drop_last());
    }
}

proof fn lemma_kept_below(
    size: int,
    land: Seq<u8>,
    lake_id: Seq<i32>,
    lakes: Seq<Lake>,
    i: nat,
    j: nat,
)
    requires
        i <= j,
    ensures
        0 <= kept_below(size, land, lake_id, lakes, i) <= kept_below(size, land, lake_id, lakes, j)
            <= j,
        i < j && !is_coastal(size, land, lake_id, lakes, i as int) ==> kept_below(
            size,
            land,
            lake_id,
            lakes,
            i,
        ) < kept_below(size, land, lake_id, lakes, j),
    decreases j,
{
    if i < j {
        lemma_kept_below(size, land, lake_id, lakes, i, (j - 1) as nat);
    } else if j > 0 {
        lemma_kept_below(size, land, lake_id, lakes, (j - 1) as nat, (j - 1) as nat);
    }
}

/// Whether a listed cell lies on the edge of the map or beside the sea.
fn meets_sea(size: usize, cells: &Vec<i32>, land: &[u8], lake_id: &Vec<i32>) -> (r: bool)
    requires
        side_ok(size as int),
        land@.len() == size * size,
        lake_id@.len() == size * size,
        cell_list(size as int, cells@),
    ensures
        r == touches_sea(size as int, land@, lake_id@, cells@),
{
    let ghost n = size as int;
    let mut i: usize = 0;
    while i < cells.len()
        invariant
            i <= cells@.len(),
            n == size,
            side_ok(n),
            land@.len() == n * n,
            lake_id@.len() == n * n,
            cell_list(n, cells@),
            forall|j: int, k: int|
                #![trigger step(n, cells@[j] as int, k)]
                0 <= j < i && 0 <= k < 4 ==> match step(n, cells@[j] as int, k) {
                    Some(c) => !is_sea(land@, lake_id@, c),
                    None => false,
                },
        decreases cells@.len() - i,
    {
        assert(is_cell(n, cells@[i as int] as int));
        let mut k: usize = 0;
        while k < 4
            invariant
                k <= 4,
                i < cells@.len(),
                n == size,
                side_ok(n),
                land@.len() == n * n,
                lake_id@.len() == n * n,
                is_cell(n, cells@[i as int] as int),
                forall|l: int|
                    #![trigger step(n, cells@[i as int] as int, l)]
                    0 <= l < k ==> match step(n, cells@[i as int] as int, l) {
                        Some(c) => !is_sea(land@, lake_id@, c),
                        None => false,
                    },
            decreases 4 - k,
        {
            match neighbor(size, cells[i] as usize, k) {
                Some(nb) => {
                    if land[nb] == 0 && lake_id[nb] < 0 {
                        assert(step(n, cells@[i as int] as int, k as int) == Some(nb as int));
                        return true;
                    }
                },
                None => {
                    assert(step(n, cells@[i as int] as int, k as int) is None);
                    return true;
                },
            }
            k += 1;
        }
        i += 1;
    }
    false
}

/// A marked lake beside the listed cells, if there is one.
fn marked_lake_beside(size: usize, cells: &Vec<i32>, lake_id: &Vec<i32>, marked: &Vec<bool>) -> (r:
    Option<usize>)
    requires
        side_ok(size as int),
        lake_id@.len() == size * size,
        cell_list(size as int, cells@),
        forall|c: int| is_cell(size as int, c) ==> #[trigger] lake_id@[c] < marked@.len(),
    ensures
        match r {
            Some(j) => j < marked@.len() && marked@[j as int] && touches_lake(
                size as int,
                lake_id@,
                cells@,
                j as int,
            ),
            None => forall|j: int|
                0 <= j < marked@.len() && #[trigger] marked@[j] ==> !touches_lake(
                    size as int,
                    lake_id@,
                    cells@,
                    j,
                ),
        },
{
    let ghost n = size as int;
    let mut i: usize = 0;
    while i < cells.len()
        invariant
            i <= cells@.len(),
            n == size,
            side_ok(n),
            lake_id@.len() == n * n,
            cell_list(n, cells@),
            forall|c: int| is_cell(n, c) ==> #[trigger] lake_id@[c] < marked@.len(),
            forall|j: int, k: int|
                #![trigger step(n, cells@[j] as int, k)]
                0 <= j < i && 0 <= k < 4 ==> match step(n, cells@[j] as int, k) {
                    Some(c) => lake_id@[c] >= 0 ==> !marked@[lake_id@[c] as int],
                    None => true,
                },
        decreases cells@.len() - i,
    {
        assert(is_cell(n, cells@[i as int] as int));
        let mut k: usize = 0;
        while k < 4
            invariant
                k <= 4,
                i < cells@.len(),
                n == size,
                side_ok(n),
                lake_id@.len() == n * n,
                is_cell(n, cells@[i as int] as int),
                forall|c: int| is_cell(n, c) ==> #[trigger] lake_id@[c] < marked@.len(),
                forall|l: int|
                    #![trigger step(n, cells@[i as int] as int, l)]
                    0 <= l < k ==> match step(n, cells@[i as int] as int, l) {
                        Some(c) => lake_id@[c] >= 0 ==> !marked@[lake_id@[c] as int],
                        None => true,
                    },
            decreases 4 - k,
        {
            if let Some(nb) = neighbor(size, cells[i] as usize, k) {
                let other: i32 = lake_id[nb];
                if other >= 0 && marked[other as usize] {
                    assert(step(n, cells@[i as int] as int, k as int) == Some(nb as int));
                    return Some(other as usize);
                }
            }
            k += 1;
        }
        i += 1;
    }
    proof {
        assert forall|j: int| 0 <= j < marked@.len() && #[trigger] marked@[j] implies !touches_lake(
            n,
            lake_id@,
            cells@,
            j,
        ) by {
            if touches_lake(n, lake_id@, cells@, j) {
                let (a, k) = choose|a: int, k: int|
                    #![trigger step(n, cells@[a] as int, k)]
                    0 <= a < cells@.len() && 0 <= k < 4 && match step(n, cells@[a] as int, k) {
                        Some(c) => lake_id@[c] == j,
                        None => false,
                    };
                assert(step(n, cells@[a] as int, k) is Some);
            }
        }
    }
    None
}

proof fn lemma_chain_extends(
    size: int,
    land: Seq<u8>,
    lake_id: Seq<i32>,
    lakes: Seq<Lake>,
    j: int,
    i: int,
)
    requires
        is_coastal(size, land, lake_id, lakes, j),
        0 <= i < lakes.len(),
        touches_lake(size, lake_id, lakes[i].cells@, j),
    ensures
        is_coastal(size, land, lake_id, lakes, i),
{
    let p = choose|p: Seq<int>| #[trigger]
        sea_chain(size, land, lake_id, lakes, p) && p.last() == j;
    let q = p.push(i);
    assert forall|t: int| 0 < t < q.len() implies touches_lake(
        size,
        lake_id,
        lakes[#[trigger] q[t]].cells@,
        q[t - 1],
    ) by {
        if t < p.len() {
            assert(q[t] == p[t] && q[t - 1] == p[t - 1]);
        } else {
            assert(q[t] == i && q[t - 1] == p.last());
        }
    }
    assert(sea_chain(size, land, lake_id, lakes, q));
    assert(q.last() == i);
}

proof fn lemma_chain_starts(
    size: int,
    land: Seq<u8>,
    lake_id: Seq<i32>,
    lakes: Seq<Lake>,
    i: int,
)
    requires
        0 <= i < lakes.len(),
        touches_sea(size, land, lake_id, lakes[i].cells@),
    ensures
        is_coastal(size, land, lake_id, lakes, i),
{
    let p = seq![i];
    assert(sea_chain(size, land, lake_id, lakes, p));
    assert(p.last() == i);
}

proof fn lemma_chain_marked(
    size: int,
    land: Seq<u8>,
    lake_id: Seq<i32>,
    lakes: Seq<Lake>,
    marked: Seq<bool>,
    p: Seq<int>,
    t: int,
)
    requires
        sea_chain(size, land, lake_id, lakes, p),
        0 <= t < p.len(),
        marked.len() == lakes.len(),
        forall|i: int|
            0 <= i < lakes.len() && touches_sea(size, land, lake_id, lakes[i].cells@)
                ==> #[trigger] marked[i],
        forall|i: int, j: int|
            #![trigger marked[i], marked[j]]
            0 <= i < lakes.len() && 0 <= j < lakes.len() && marked[j] && touches_lake(
                size,
                lake_id,
                lakes[i].cells@,
                j,
            ) ==> marked[i],
    ensures
        marked[p[t]],
    decreases t,
{
    assert(0 <= p[t] < lakes.len());
    assert(0 <= p[0] < lakes.len());
    if t > 0 {
        lemma_chain_marked(size, land, lake_id, lakes, marked, p, t - 1);
        assert(0 <= p[t - 1] < lakes.len());
        assert(touches_lake(size, lake_id, lakes[p[t]].cells@, p[t - 1]));
        assert(marked[p[t - 1]]);
        assert(marked[p[t]]);
    }
}

/// Marks the lakes whose water meets the sea.
#[verifier::loop_isolation(false)]
fn coastal_lakes(size: usize, land: &[u8], scratch: &LakeScratch) -> (r: Vec<bool>)
    requires
        side_ok(size as int),
        land@.len() == size * size,
        scratch.well_formed(size as int),
    ensures
        r@.len() == scratch.lakes@.len(),
        forall|i: int|
            0 <= i < r@.len() ==> #[trigger] r@[i] == is_coastal(
                size as int,
                land@,
                scratch.lake_id@,
                scratch.lakes@,
                i,
            ),
{
    let ghost n = size as int;
    let ghost ids = scratch.lake_id@;
    let ghost lakes = scratch.lakes@;
    let total: usize = scratch.lakes.len();
    let mut coastal: Vec<bool> = Vec::new();
    let mut i: usize = 0;
    while i < total
        invariant
            i <= total,
            coastal@.len() == i,
            forall|j: int|
                0 <= j < i ==> #[trigger] coastal@[j] == touches_sea(n, land@, ids, lakes[j].cells@),
        decreases total - i,
    {
        assert(cell_list(n, scratch.lakes@[i as int].cells@));
        coastal.push(meets_sea(size, &scratch.lakes[i].cells, land, &scratch.lake_id));
        i += 1;
    }
    proof {
        assert forall|j: int| 0 <= j < total && #[trigger] coastal@[j] implies is_coastal(
            n,
            land@,
            ids,
            lakes,
            j,
        ) by {
            lemma_chain_starts(n, land@, ids, lakes, j);
        }
        assert forall|c: int| is_cell(n, c) implies #[trigger] ids[c] < total by {
            if ids[c] >= 0 {
                assert(scratch.lake_id@[c] >= 0);
            }
        }
    }
    let mut changed: bool = true;
    while changed
        invariant
            coastal@.len() == total,
            forall|j: int|
                0 <= j < total && #[trigger] coastal@[j] ==> is_coastal(n, land@, ids, lakes, j),
            forall|j: int|
                0 <= j < total && touches_sea(n, land@, ids, lakes[j].cells@)
                    ==> #[trigger] coastal@[j],
            !changed ==> forall|j: int, l: int|
                #![trigger coastal@[j], coastal@[l]]
                0 <= j < total && 0 <= l < total && coastal@[l] && touches_lake(
                    n,
                    ids,
                    lakes[j].cells@,
                    l,
                ) ==> coastal@[j],
        decreases total - count_marked(coastal@), changed as int,
    {
        let ghost before = coastal@;
        proof {
            lemma_count_bound(coastal@);
        }
        changed = false;
        let mut s: usize = 0;
        while s < total
            invariant
                s <= total,
                coastal@.len() == total,
                count_marked(before) <= count_marked(coastal@) <= total,
                changed ==> count_marked(before) < count_marked(coastal@),
                !changed ==> coastal@ == before,
                forall|j: int|
                    0 <= j < total && #[trigger] coastal@[j] ==> is_coastal(
                        n,
                        land@,
                        ids,
                        lakes,
                        j,
                    ),
                forall|j: int|
                    0 <= j < total && touches_sea(n, land@, ids, lakes[j].cells@)
                        ==> #[trigger] coastal@[j],
                !changed ==> forall|j: int, l: int|
                    #![trigger coastal@[j], coastal@[l]]
                    0 <= j < s && 0 <= l < total && coastal@[l] && touches_lake(
                        n,
                        ids,
                        lakes[j].cells@,
                        l,
                    ) ==> coastal@[j],
            decreases total - s,
        {
            if !coastal[s] {
                assert(cell_list(n, scratch.lakes@[s as int].cells@));
                match marked_lake_beside(size, &scratch.lakes[s].cells, &scratch.lake_id, &coastal) {
                    Some(j) => {
                        proof {
                            lemma_chain_extends(n, land@, ids, lakes, j as int, s as int);
                            lemma_count_marked(coastal@, s as int);
                        }
                        coastal.set(s, true);
                        changed = true;
                        proof {
                            lemma_count_bound(coastal@);
                        }
                    },
                    None => {},
                }
            }
            s += 1;
        }
    }
    proof {
        assert forall|i: int| 0 <= i < total implies #[trigger] coastal@[i] == is_coastal(
            n,
            land@,
            ids,
            lakes,
            i,
        ) by {
            if is_coastal(n, land@, ids, lakes, i) {
                let p = choose|p: Seq<int>| #[trigger]
                    sea_chain(n, land@, ids, lakes, p) && p.last() == i;
                lemma_chain_marked(n, land@, ids, lakes, coastal@, p, p.len() - 1);
            }
        }
    }
    coastal
}


/// Turns the listed cells into sea.
fn drown_cells(cells: &Vec<i32>, land: &mut [u8], elev_code: &mut [u8], lake_id: &mut Vec<i32>)
    requires
        old(land)@.len() == old(lake_id)@.len(),
        old(elev_code)@.len() == old(lake_id)@.len(),
        old(lake_id)@.len() <= 2147395600,
        forall|i: int| 0 <= i < cells@.len() ==> 0 <= #[trigger] cells@[i] < old(lake_id)@.len(),
    ensures
        final(land)@ == Seq::new(
            old(land)@.len(),
            |c: int|
                if cells@.contains(c as i32) {
                    0u8
                } else {
                    old(land)@[c]
                },
        ),
        final(lake_id)@ == with_lake(old(lake_id)@, cells@, -1i32),
        final(elev_code)@ == Seq::new(
            old(elev_code)@.len(),
            |c: int|
                if cells@.contains(c as i32) && old(elev_code)@[c] > 32 {
                    32u8
                } else {
                    old(elev_code)@[c]
                },
        ),
{
    let ghost land0 = land@;
    let ghost elev0 = elev_code@;
    let mut i: usize = 0;
    while i < cells.len()
        invariant
            i <= cells@.len(),
            land@.len() == land0.len(),
            elev_code@.len() == land0.len(),
            elev0.len() == land0.len(),
            land0.len() <= 2147395600,
            forall|j: int| 0 <= j < cells@.len() ==> 0 <= #[trigger] cells@[j] < land0.len(),
            forall|c: int|
                0 <= c < land0.len() ==> #[trigger] land@[c] == (if cells@.take(i as int).contains(
                    c as i32,
                ) {
                    0u8
                } else {
                    land0[c]
                }),
            forall|c: int|
                0 <= c < land0.len() ==> #[trigger] elev_code@[c] == (if cells@.take(
                    i as int,
                ).contains(c as i32) && elev0[c] > 32 {
                    32u8
                } else {
                    elev0[c]
                }),
        decreases cells@.len() - i,
    {
        assert(0 <= cells@[i as int] < land0.len());
        let cell: usize = cells[i] as usize;
        let ghost land_mid = land@;
        let ghost elev_mid = elev_code@;
        land[cell] = 0;
        if elev_code[cell] > 32 {
            elev_code[cell] = 32;
        }
        proof {
            let then = cells@.take(i as int);
            let now = cells@.take(i + 1);
            assert forall|c: int| 0 <= c < land0.len() implies #[trigger] now.contains(
                c as i32,
            ) == (then.contains(c as i32) || c == cell) by {
                if then.contains(c as i32) {
                    let j = choose|j: int| 0 <= j < then.len() && then[j] == c as i32;
                    assert(now[j] == c as i32);
                }
                if c == cell {
                    assert(now[i as int] == c as i32);
                } else if now.contains(c as i32) {
                    let j = choose|j: int| 0 <= j < now.len() && now[j] == c as i32;
                    assert(then[j] == c as i32);
                }
            }
            assert forall|c: int| 0 <= c < land0.len() implies #[trigger] land@[c] == (
            if now.contains(c as i32) {
                0u8
            } else {
                land0[c]
            }) by {
                assert(land_mid[c] == land_mid[c]);
            }
            assert forall|c: int| 0 <= c < land0.len() implies #[trigger] elev_code@[c] == (
            if now.contains(c as i32) && elev0[c] > 32 {
                32u8
            } else {
                elev0[c]
            }) by {
                assert(elev_mid[c] == elev_mid[c]);
            }
        }
        i += 1;
    }
    claim_cells(lake_id, cells, -1);
    assert(cells@.take(cells@.len() as int) =~= cells@);
    assert(land@ =~= Seq::new(
        land0.len(),
        |c: int|
            if cells@.contains(c as i32) {
                0u8
            } else {
                land0[c]
            },
    ));
    assert(elev_code@ =~= Seq::new(
        elev0.len(),
        |c: int|
            if cells@.contains(c as i32) && elev0[c] > 32 {
                32u8
            } else {
                elev0[c]
            },
    ));
}

/// No lake lies on the edge of the map or beside the sea.
pub open spec fn lakes_inland(size: int, land: Seq<u8>, lake_id: Seq<i32>, lakes: Seq<Lake>) -> bool {
    forall|i: int|
        #![trigger lakes[i]]
        0 <= i < lakes.len() ==> !touches_sea(size, land, lake_id, lakes[i].cells@)
}

/// What merging the first `upto` lakes makes of a cell: the cells of lakes that
/// meet the sea are drowned, the others carry their lake's new number.
pub open spec fn merged_cell(
    size: int,
    land: Seq<u8>,
    elev: Seq<u8>,
    lake_id: Seq<i32>,
    lakes: Seq<Lake>,
    upto: int,
    c: int,
    land_now: u8,
    elev_now: u8,
    id_now: i32,
) -> bool {
    let was = lake_id[c] as int;
    if 0 <= was < upto {
        if is_coastal(size, land, lake_id, lakes, was) {
            land_now == 0 && elev_now == (if elev[c] > 32 {
                32u8
            } else {
                elev[c]
            }) && id_now == -1
        } else {
            land_now == land[c] && elev_now == elev[c] && id_now == kept_below(
                size,
                land,
                lake_id,
                lakes,
                was as nat,
            )
        }
    } else {
        land_now == land[c] && elev_now == elev[c] && id_now == was
    }
}

/// The lakes kept of the `i`-th: unchanged but for its number.
pub open spec fn merged_lake(
    size: int,
    land: Seq<u8>,
    lake_id: Seq<i32>,
    lakes: Seq<Lake>,
    kept: Seq<Lake>,
    i: int,
) -> bool {
    let at = kept_below(size, land, lake_id, lakes, i as nat);
    !is_coastal(size, land, lake_id, lakes, i) ==> {
        &&& 0 <= at < kept.len()
        &&& kept[at].id == at
        &&& kept[at].cells@ == lakes[i].cells@
        &&& kept[at].spill_cell == lakes[i].spill_cell
        &&& kept[at].surface_code == lakes[i].surface_code
        &&& kept[at].surface_z == lakes[i].surface_z
    }
}

/// Convert sea-connected lake basins into sea before packing.
#[verifier::loop_isolation(false)]
pub fn merge_coastal_lakes_into_ocean(
    size: usize,
    land: &mut [u8],
    elev_code: &mut [u8],
    scratch: &mut LakeScratch,
)
    requires
        side_ok(size as int),
        old(land)@.len() == size * size,
        old(elev_code)@.len() == size * size,
        old(scratch).well_formed(size as int),
    ensures
        final(scratch).well_formed(size as int),
        final(land)@.len() == size * size,
        final(elev_code)@.len() == size * size,
        lakes_inland(size as int, final(land)@, final(scratch).lake_id@, final(scratch).lakes@),
        final(scratch).lakes@.len() == kept_below(
            size as int,
            old(land)@,
            old(scratch).lake_id@,
            old(scratch).lakes@,
            old(scratch).lakes@.len(),
        ),
        forall|i: int|
            0 <= i < old(scratch).lakes@.len() ==> #[trigger] merged_lake(
                size as int,
                old(land)@,
                old(scratch).lake_id@,
                old(scratch).lakes@,
                final(scratch).lakes@,
                i,
            ),
        forall|c: int|
            #![trigger final(scratch).lake_id@[c]]
            is_cell(size as int, c) ==> merged_cell(
                size as int,
                old(land)@,
                old(elev_code)@,
                old(scratch).lake_id@,
                old(scratch).lakes@,
                old(scratch).lakes@.len() as int,
                c,
                final(land)@[c],
                final(elev_code)@[c],
                final(scratch).lake_id@[c],
            ),
{
    let ghost n = size as int;
    let ghost land0 = land@;
    let ghost elev0 = elev_code@;
    let ghost ids = scratch.lake_id@;
    let ghost lakes0 = scratch.lakes@;
    let ghost scratch0 = *scratch;
    proof {
        lemma_side(n);
    }
    let coastal: Vec<bool> = coastal_lakes(size, land, scratch);
    let total: usize = scratch.lakes.len();
    let mut old_lakes: Vec<Lake> = Vec::new();
    std::mem::swap(&mut old_lakes, &mut scratch.lakes);
    let mut kept: Vec<Lake> = Vec::new();
    let ghost mut origin: Seq<int> = Seq::empty();
    let mut i: usize = 0;
    while i < total
        invariant
            i <= total,
            old_lakes@ == lakes0.skip(i as int),
            land@.len() == n * n,
            elev_code@.len() == n * n,
            scratch.lake_id@.len() == n * n,
            kept@.len() == kept_below(n, land0, ids, lakes0, i as nat),
            kept@.len() <= i,
            forall|j: int|
                0 <= j < i ==> #[trigger] merged_lake(n, land0, ids, lakes0, kept@, j),
            origin.len() == kept@.len(),
            forall|at: int|
                0 <= at < origin.len() ==> 0 <= #[trigger] origin[at] < i && !is_coastal(
                    n,
                    land0,
                    ids,
                    lakes0,
                    origin[at],
                ) && kept_below(n, land0, ids, lakes0, origin[at] as nat) == at,
            forall|c: int|
                #![trigger scratch.lake_id@[c]]
                is_cell(n, c) ==> merged_cell(
                    n,
                    land0,
                    elev0,
                    ids,
                    lakes0,
                    i as int,
                    c,
                    land@[c],
                    elev_code@[c],
                    scratch.lake_id@[c],
                ),
        decreases total - i,
    {
        let ghost kept_b = kept@;
        let ghost land_b = land@;
        let ghost elev_b = elev_code@;
        let ghost ids_b = scratch.lake_id@;
        let mut lake: Lake = old_lakes.remove(0);
        let ghost cells = lakes0[i as int].cells@;
        proof {
            assert(lake == lakes0[i as int]);
            assert(old_lakes@ =~= lakes0.skip(i + 1));
            assert(cell_list(n, scratch0.lakes@[i as int].cells@));
            assert forall|j: int| 0 <= j < cells.len() implies 0 <= #[trigger] cells[j] < n * n by {
                assert(is_cell(n, cells[j] as int));
            }
            assert forall|c: int| is_cell(n, c) implies (cells.contains(c as i32) <==> #[trigger] ids[c]
                == i) by {
                if cells.contains(c as i32) {
                    let j = choose|j: int| 0 <= j < cells.len() && cells[j] == c as i32;
                    assert(scratch0.lake_id@[scratch0.lakes@[i as int].cells@[j] as int] == i);
                }
                if ids[c] == i {
                    assert(scratch0.lake_id@[c] >= 0);
                }
            }
            lemma_kept_below(n, land0, ids, lakes0, i as nat, (i + 1) as nat);
        }
        if coastal[i] {
            drown_cells(&lake.cells, land, elev_code, &mut scratch.lake_id);
        } else {
            assert(scratch0.well_formed(n));
            assert(total <= n * n) by {
                lemma_lakes_fit(n, &scratch0);
            }
            lake.id = kept.len() as i32;
            claim_cells(&mut scratch.lake_id, &lake.cells, lake.id);
            kept.push(lake);
            proof {
                origin = origin.push(i as int);
            }
        }
        proof {
            assert(coastal@[i as int] == is_coastal(n, land0, ids, lakes0, i as int));
            assert forall|c: int| #![trigger scratch.lake_id@[c]] is_cell(n, c) implies merged_cell(
                n,
                land0,
                elev0,
                ids,
                lakes0,
                i + 1,
                c,
                land@[c],
                elev_code@[c],
                scratch.lake_id@[c],
            ) by {
                assert(cells.contains(c as i32) <==> ids[c] == i);
                assert(merged_cell(
                    n,
                    land0,
                    elev0,
                    ids,
                    lakes0,
                    i as int,
                    c,
                    land_b[c],
                    elev_b[c],
                    ids_b[c],
                )) by {
                    assert(ids_b[c] <= ids_b[c]);
                }
                if ids[c] == i {
                } else {
                    assert(scratch.lake_id@[c] == ids_b[c]);
                    assert(land@[c] == land_b[c]);
                    assert(elev_code@[c] == elev_b[c]);
                }
            }
            assert forall|j: int| 0 <= j < i + 1 implies #[trigger] merged_lake(
                n,
                land0,
                ids,
                lakes0,
                kept@,
                j,
            ) by {
                if j < i {
                    assert(merged_lake(n, land0, ids, lakes0, kept_b, j));
                }
            }
        }
        i += 1;
    }
    scratch.lakes = kept;
    proof {
        lemma_merged_well_formed(
            n,
            land0,
            elev0,
            &scratch0,
            land@,
            elev_code@,
            scratch,
            origin,
        );
    }
}

proof fn lemma_lakes_fit(size: int, scratch: &LakeScratch)
    requires
        side_ok(size),
        scratch.well_formed(size),
    ensures
        scratch.lakes@.len() <= size * size <= 2147395600,
{
    lemma_side(size);
    let firsts = Seq::new(scratch.lakes@.len(), |i: int| scratch.lakes@[i].cells@[0]);
    assert forall|i: int| 0 <= i < firsts.len() implies is_cell(size, #[trigger] firsts[i] as int) by {
        assert(is_cell(size, scratch.lakes@[i].cells@[0] as int));
    }
    assert forall|i: int, j: int|
        0 <= i < firsts.len() && 0 <= j < firsts.len() && i != j implies firsts[i] != firsts[j] by {
        assert(scratch.lake_id@[scratch.lakes@[i].cells@[0] as int] == i);
        assert(scratch.lake_id@[scratch.lakes@[j].cells@[0] as int] == j);
    }
    lemma_distinct_len(firsts, size * size);
}

/// What merging leaves is well formed and touches no sea.
proof fn lemma_merged_well_formed(
    size: int,
    land0: Seq<u8>,
    elev0: Seq<u8>,
    before: &LakeScratch,
    land: Seq<u8>,
    elev: Seq<u8>,
    after: &LakeScratch,
    origin: Seq<int>,
)
    requires
        side_ok(size),
        before.well_formed(size),
        after.lake_id@.len() == size * size,
        after.lakes@.len() == kept_below(
            size,
            land0,
            before.lake_id@,
            before.lakes@,
            before.lakes@.len(),
        ),
        forall|j: int|
            0 <= j < before.lakes@.len() ==> #[trigger] merged_lake(
                size,
                land0,
                before.lake_id@,
                before.lakes@,
                after.lakes@,
                j,
            ),
        origin.len() == after.lakes@.len(),
        forall|at: int|
            0 <= at < origin.len() ==> 0 <= #[trigger] origin[at] < before.lakes@.len()
                && !is_coastal(size, land0, before.lake_id@, before.lakes@, origin[at])
                && kept_below(size, land0, before.lake_id@, before.lakes@, origin[at] as nat) == at,
        forall|c: int|
            #![trigger after.lake_id@[c]]
            is_cell(size, c) ==> merged_cell(
                size,
                land0,
                elev0,
                before.lake_id@,
                before.lakes@,
                before.lakes@.len() as int,
                c,
                land[c],
                elev[c],
                after.lake_id@[c],
            ),
    ensures
        after.well_formed(size),
        lakes_inland(size, land, after.lake_id@, after.lakes@),
{
    let ids = before.lake_id@;
    let lakes0 = before.lakes@;
    let total = lakes0.len();
    assert forall|at: int| #![trigger after.lakes@[at]] 0 <= at < after.lakes@.len() implies {
        &&& after.lakes@[at].id == at
        &&& after.lakes@[at].cells@.len() > 0
        &&& cell_list(size, after.lakes@[at].cells@)
    } by {
        let j = origin[at];
        assert(before.lakes@[j].id == j);
        assert(merged_lake(size, land0, ids, lakes0, after.lakes@, j));
    }
    assert forall|at: int, x: int|
        #![trigger after.lakes@[at].cells@[x]]
        0 <= at < after.lakes@.len() && 0 <= x < after.lakes@[at].cells@.len() implies after.lake_id@[after.lakes@[at].cells@[x] as int]
        == at by {
        let j = origin[at];
        assert(before.lakes@[j].id == j);
        assert(merged_lake(size, land0, ids, lakes0, after.lakes@, j));
        let c = before.lakes@[j].cells@[x];
        assert(before.lake_id@[before.lakes@[j].cells@[x] as int] == j);
        assert(is_cell(size, before.lakes@[j].cells@[x] as int));
        assert(after.lake_id@[c as int] == at);
    }
    assert forall|c: int| is_cell(size, c) && #[trigger] after.lake_id@[c] >= 0 implies {
        &&& after.lake_id@[c] < after.lakes@.len()
        &&& after.lakes@[after.lake_id@[c] as int].cells@.contains(c as i32)
    } by {
        let was = ids[c];
        assert(before.lake_id@[c] >= 0);
        lemma_kept_below(size, land0, ids, lakes0, was as nat, total);
        assert(before.lakes@[was as int].cells@.contains(c as i32));
        let at = kept_below(size, land0, ids, lakes0, was as nat);
        assert(merged_lake(size, land0, ids, lakes0, after.lakes@, was as int));
    }
    assert forall|at: int| #![trigger after.lakes@[at]] 0 <= at < after.lakes@.len() implies !touches_sea(
        size,
        land,
        after.lake_id@,
        after.lakes@[at].cells@,
    ) by {
        let j = origin[at];
        let cells = before.lakes@[j].cells@;
        assert(merged_lake(size, land0, ids, lakes0, after.lakes@, j));
        assert(after.lakes@[at].cells@ == cells);
        if touches_sea(size, land, after.lake_id@, cells) {
            let (i, k) = choose|i: int, k: int|
                #![trigger step(size, cells[i] as int, k)]
                0 <= i < cells.len() && 0 <= k < 4 && match step(size, cells[i] as int, k) {
                    Some(c) => is_sea(land, after.lake_id@, c),
                    None => true,
                };
            assert(is_cell(size, cells[i] as int));
            lemma_step(size, cells[i] as int, k);
            match step(size, cells[i] as int, k) {
                Some(c) => {
                    assert(after.lake_id@[c] < 0);
                    if ids[c] < 0 {
                        assert(is_sea(land0, ids, c));
                        assert(touches_sea(size, land0, ids, cells));
                        lemma_chain_starts(size, land0, ids, lakes0, j);
                    } else {
                        assert(before.lake_id@[c] >= 0);
                        lemma_kept_below(size, land0, ids, lakes0, ids[c] as nat, total);
                        assert(touches_lake(size, ids, cells, ids[c] as int));
                        lemma_chain_extends(size, land0, ids, lakes0, ids[c] as int, j);
                    }
                },
                None => {
                    assert(touches_sea(size, land0, ids, cells));
                    lemma_chain_starts(size, land0, ids, lakes0, j);
                },
            }
        }
    }
}

/// A dry cell that no lower cell of its landmass precedes.
pub open spec fn leads(size: int, dry: Seq<bool>, c: int) -> bool {
    &&& is_cell(size, c)
    &&& dry[c]
    &&& forall|d: int| #[trigger] joined(size, dry, c, d) ==> c <= d
}

/// How many of the cells below `c` lead a landmass.
pub open spec fn leaders_below(size: int, dry: Seq<bool>, c: nat) -> int
    decreases c,
{
    if c == 0 {
        0
    } else {
        leaders_below(size, dry, (c - 1) as nat) + if leads(size, dry, c - 1) {
            1int
        } else {
            0int
        }
    }
}

proof fn lemma_leaders_below(size: int, dry: Seq<bool>, a: nat, b: nat)
    requires
        a <= b,
    ensures
        0 <= leaders_below(size, dry, a) <= leaders_below(size, dry, b) <= b,
        a < b && leads(size, dry, a as int) ==> leaders_below(size, dry, a) < leaders_below(
            size,
            dry,
            b,
        ),
    decreases b,
{
    if a < b {
        lemma_leaders_below(size, dry, a, (b - 1) as nat);
    } else if b > 0 {
        lemma_leaders_below(size, dry, (b - 1) as nat, (b - 1) as nat);
    }
}

/// Numbers the landmasses, in the order of their first cells, and writes each
/// dry cell's number.
#[verifier::loop_isolation(false)]
pub fn label_landmasses(size: usize, land: &[u8], lake_id: &[i32], landmass_id: &mut [i32])
    requires
        side_ok(size as int),
        land@.len() == size * size,
        lake_id@.len() == size * size,
        old(landmass_id)@.len() == size * size,
    ensures
        final(landmass_id)@.len() == size * size,
        forall|c: int|
            #![trigger final(landmass_id)@[c]]
            is_cell(size as int, c) && !is_dry(land@, lake_id@, c) ==> final(landmass_id)@[c]
                == old(landmass_id)@[c],
        forall|a: int, c: int|
            leads(size as int, dry_mask(size as int, land@, lake_id@), a) && #[trigger] joined(
                size as int,
                dry_mask(size as int, land@, lake_id@),
                a,
                c,
            ) ==> final(landmass_id)@[c] == leaders_below(
                size as int,
                dry_mask(size as int, land@, lake_id@),
                a as nat,
            ),
{
    let ghost n = size as int;
    let ghost dry_g = dry_mask(n, land@, lake_id@);
    let ghost mass0 = landmass_id@;
    proof {
        lemma_side(n);
    }
    let count: usize = size * size;
    let mut dry: Vec<bool> = Vec::new();
    let mut c: usize = 0;
    while c < count
        invariant
            c <= count,
            dry@.len() == c,
            forall|d: int| 0 <= d < c ==> #[trigger] dry@[d] == is_dry(land@, lake_id@, d),
        decreases count - c,
    {
        dry.push(land[c] != 0 && lake_id[c] < 0);
        c += 1;
    }
    assert(dry@ =~= dry_g);
    let mut seen: Vec<bool> = vec![false; count];
    let mut mass: i32 = 0;
    let mut start: usize = 0;
    while start < count
        invariant
            start <= count,
            seen@.len() == n * n,
            landmass_id@.len() == n * n,
            settled(n, dry_g, seen@),
            mass == leaders_below(n, dry_g, start as nat),
            0 <= mass <= start,
            forall|d: int| 0 <= d < start && dry_g[d] ==> #[trigger] seen@[d],
            forall|d: int|
                is_cell(n, d) && #[trigger] seen@[d] ==> dry_g[d] && exists|a: int|
                    0 <= a < start && #[trigger] joined(n, dry_g, a, d),
            forall|d: int|
                #![trigger landmass_id@[d]]
                is_cell(n, d) && !seen@[d] ==> landmass_id@[d] == mass0[d],
            forall|a: int, d: int|
                leads(n, dry_g, a) && a < start && #[trigger] joined(n, dry_g, a, d)
                    ==> landmass_id@[d] == leaders_below(n, dry_g, a as nat),
        decreases count - start,
    {
        if dry[start] && !seen[start] {
            let ghost seen_b = seen@;
            let ghost mass_b = landmass_id@;
            let cells: Vec<i32> = gather_part(size, &dry, start, &mut seen);
            let ghost part = cells@;
            let mut i: usize = 0;
            while i < cells.len()
                invariant
                    i <= cells@.len(),
                    landmass_id@.len() == n * n,
                    forall|d: int|
                        is_cell(n, d) ==> #[trigger] landmass_id@[d] == (if part.take(
                            i as int,
                        ).contains(d as i32) {
                            mass
                        } else {
                            mass_b[d]
                        }),
                decreases cells@.len() - i,
            {
                assert(is_cell(n, cells@[i as int] as int));
                let ghost mid = landmass_id@;
                landmass_id[cells[i] as usize] = mass;
                proof {
                    let then = part.take(i as int);
                    let now = part.take(i + 1);
                    assert forall|d: int| is_cell(n, d) implies #[trigger] landmass_id@[d] == (
                    if now.contains(d as i32) {
                        mass
                    } else {
                        mass_b[d]
                    }) by {
                        assert(mid[d] == mid[d]);
                        if then.contains(d as i32) {
                            let j = choose|j: int| 0 <= j < then.len() && then[j] == d as i32;
                            assert(now[j] == d as i32);
                        }
                        if d == part[i as int] {
                            assert(now[i as int] == d as i32);
                        } else if now.contains(d as i32) {
                            let j = choose|j: int| 0 <= j < now.len() && now[j] == d as i32;
                            assert(then[j] == d as i32);
                        }
                    }
                }
                i += 1;
            }
            proof {
                assert(part.take(part.len() as int) =~= part);
                lemma_joined_self(n, dry_g, start as int);
                assert(leads(n, dry_g, start as int)) by {
                    assert forall|d: int| #[trigger] joined(n, dry_g, start as int, d) implies start
                        <= d by {
                        lemma_joined_ends(n, dry_g, start as int, d);
                        if d < start {
                            assert(seen_b[d]);
                            lemma_joined_symmetric(n, dry_g, start as int, d);
                            lemma_settled_holds(n, dry_g, seen_b, d, start as int);
                        }
                    }
                }
                assert forall|a: int, d: int|
                    leads(n, dry_g, a) && a < start + 1 && #[trigger] joined(
                        n,
                        dry_g,
                        a,
                        d,
                    ) implies landmass_id@[d] == leaders_below(n, dry_g, a as nat) by {
                    lemma_joined_ends(n, dry_g, a, d);
                    if a < start {
                        assert(seen_b[a]);
                        lemma_settled_holds(n, dry_g, seen_b, a, d);
                        assert(mass_b[d] == leaders_below(n, dry_g, a as nat));
                        if part.contains(d as i32) {
                            let j = choose|j: int| 0 <= j < part.len() && part[j] == d as i32;
                            assert(joined(n, dry_g, start as int, part[j] as int));
                            lemma_joined_symmetric(n, dry_g, start as int, d);
                            lemma_settled_holds(n, dry_g, seen_b, d, start as int);
                        }
                    } else {
                        assert(part.contains(d as i32));
                    }
                }
                assert forall|d: int|
                    #![trigger landmass_id@[d]]
                    is_cell(n, d) && !seen@[d] implies landmass_id@[d] == mass0[d] by {
                    if part.contains(d as i32) {
                        let j = choose|j: int| 0 <= j < part.len() && part[j] == d as i32;
                        assert(joined(n, dry_g, start as int, part[j] as int));
                    }
                    assert(mass_b[d] == mass_b[d]);
                }
                assert forall|d: int| is_cell(n, d) && #[trigger] seen@[d] implies dry_g[d]
                    && exists|a: int| 0 <= a < start + 1 && #[trigger] joined(n, dry_g, a, d) by {
                    if !seen_b[d] {
                        lemma_joined_ends(n, dry_g, start as int, d);
                    }
                }
                assert forall|d: int| 0 <= d < start + 1 && dry_g[d] implies #[trigger] seen@[d] by {
                    if d < start {
                        assert(seen_b[d]);
                    }
                }
            }
            mass += 1;
        } else {
            proof {
                if dry_g[start as int] {
                    assert(!leads(n, dry_g, start as int)) by {
                        let a = choose|a: int|
                            0 <= a < start && #[trigger] joined(n, dry_g, a, start as int);
                        lemma_joined_symmetric(n, dry_g, a, start as int);
                    }
                }
            }
        }
        start += 1;
    }
}

/// Once every cut-off sea is a lake, all sea that is left reaches the edge of
/// the map.
pub proof fn law_no_inland_sea_left(
    size: int,
    land: Seq<u8>,
    before: Seq<i32>,
    after: Seq<i32>,
    c: int,
)
    requires
        side_ok(size),
        forall|d: int|
            #![trigger after[d]]
            is_cell(size, d) ==> if inland_sea_mask(size, land, before)[d] {
                after[d] >= 0
            } else {
                after[d] == before[d]
            },
        is_cell(size, c),
        is_sea(land, after, c),
    ensures
        is_open_sea(size, land, after, c),
{
    let sea0 = sea_mask(size, land, before);
    let sea1 = sea_mask(size, land, after);
    assert(after[c] < 0);
    assert(is_sea(land, before, c));
    let b = choose|b: int|
        is_cell(size, b) && on_border(size, b) && #[trigger] joined(size, sea0, b, c);
    let held = |x: int| joined(size, sea0, b, x) && joined(size, sea1, b, x);
    lemma_joined_ends(size, sea0, b, c);
    lemma_joined_self(size, sea0, b);
    assert(is_open_sea(size, land, before, b));
    assert(after[b] == before[b]);
    lemma_joined_self(size, sea1, b);
    assert forall|x: int, y: int|
        #![trigger adjacent(size, x, y)]
        is_cell(size, x) && is_cell(size, y) && sea0[x] && sea0[y] && held(x) && adjacent(
            size,
            x,
            y,
        ) implies held(y) by {
        lemma_joined_step(size, sea0, b, x, y);
        assert(is_open_sea(size, land, before, y));
        assert(after[y] == before[y]);
        lemma_joined_step(size, sea1, b, x, y);
    }
    lemma_joined_induction(size, sea0, b, c, held);
}

/// Every dry cell belongs to the landmass of some leading cell.
proof fn lemma_has_leader(size: int, dry: Seq<bool>, c: int) -> (a: int)
    requires
        side_ok(size),
        is_cell(size, c),
        dry[c],
    ensures
        leads(size, dry, a),
        joined(size, dry, a, c),
    decreases c,
{
    if leads(size, dry, c) {
        lemma_joined_self(size, dry, c);
        c
    } else {
        let d = choose|d: int| #[trigger] joined(size, dry, c, d) && d < c;
        lemma_joined_ends(size, dry, c, d);
        let a = lemma_has_leader(size, dry, d);
        lemma_joined_symmetric(size, dry, c, d);
        lemma_joined_transitive(size, dry, a, d, c);
        a
    }
}

/// Two dry cells carry one landmass number exactly when dry land joins them.
pub proof fn law_landmass_is_connected_land(
    size: int,
    dry: Seq<bool>,
    landmass: Seq<i32>,
    c: int,
    d: int,
)
    requires
        side_ok(size),
        forall|a: int, x: int|
            leads(size, dry, a) && #[trigger] joined(size, dry, a, x) ==> landmass[x]
                == leaders_below(size, dry, a as nat),
        is_cell(size, c),
        is_cell(size, d),
        dry[c],
        dry[d],
    ensures
        landmass[c] == landmass[d] <==> joined(size, dry, c, d),
{
    let a = lemma_has_leader(size, dry, c);
    let b = lemma_has_leader(size, dry, d);
    if landmass[c] == landmass[d] {
        if a < b {
            lemma_leaders_below(size, dry, a as nat, b as nat);
        } else if b < a {
            lemma_leaders_below(size, dry, b as nat, a as nat);
        }
        assert(a == b);
        lemma_joined_symmetric(size, dry, a, c);
        lemma_joined_transitive(size, dry, c, a, d);
    }
    if joined(size, dry, c, d) {
        lemma_joined_transitive(size, dry, a, c, d);
    }
}

} // verus!
