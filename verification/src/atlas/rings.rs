//! The outlines of a region of cells: closed walks along the corners of the grid with the
//! region on the left.

use crate::atlas::biomes::{is_water, is_water_biome};
use crate::atlas::grid::{cell_number, inside, is_cell, lemma_side, side_ok};
use crate::atlas::pack::{biome, cell_biome, cell_valid, lemma_cell_biome};
use vstd::prelude::*;

verus! {

/// Whether a cell lies in the region; nothing beyond the grid does.
pub open spec fn within(mask: Seq<bool>, size: int, ax: int, az: int) -> bool {
    inside(size, ax, az) && mask[cell_number(size, ax, az)]
}

/// The number of a corner: corners are counted row by row, one more to a row than cells.
pub open spec fn corner_number(size: int, x: int, z: int) -> int {
    z * (size + 1) + x
}

/// Where the outline leads from the corner `(x, z)`, the region on its left: along the top
/// of the cell below, down the far side of the cell before it, up the near side of the cell
/// above, or back along the bottom of the cell above and before. Where two corners of the
/// region meet, the first of these that bounds it.
pub open spec fn outline_step(mask: Seq<bool>, size: int, x: int, z: int) -> Option<int> {
    if within(mask, size, x, z) && !within(mask, size, x, z - 1) {
        Some(corner_number(size, x + 1, z))
    } else if within(mask, size, x - 1, z) && !within(mask, size, x, z) {
        Some(corner_number(size, x, z + 1))
    } else if within(mask, size, x, z - 1) && !within(mask, size, x - 1, z - 1) {
        Some(corner_number(size, x, z - 1))
    } else if within(mask, size, x - 1, z - 1) && !within(mask, size, x - 1, z) {
        Some(corner_number(size, x - 1, z))
    } else {
        None
    }
}

/// Where the outline leads from each corner.
pub open spec fn outline(mask: Seq<bool>, size: int) -> Seq<Option<int>> {
    Seq::new(
        ((size + 1) * (size + 1)) as nat,
        |k: int| outline_step(mask, size, k % (size + 1), k / (size + 1)),
    )
}

/// How many of the first `n` corners still lead somewhere.
pub open spec fn steps_left(left: Seq<Option<int>>, n: nat) -> nat
    decreases n,
{
    if n == 0 {
        0
    } else {
        steps_left(left, (n - 1) as nat) + if left[n - 1] is Some {
            1nat
        } else {
            0nat
        }
    }
}

/// Taking a step leaves one fewer.
pub proof fn lemma_step_taken(left: Seq<Option<int>>, k: int, n: nat)
    requires
        n <= left.len(),
        0 <= k < left.len(),
        left[k] is Some,
    ensures
        steps_left(left.update(k, None), n) == steps_left(left, n) - if k < n {
            1int
        } else {
            0int
        },
    decreases n,
{
    if n > 0 {
        lemma_step_taken(left, k, (n - 1) as nat);
    }
}

/// The corners walked from `cur` until the walk is back at `start` or leads nowhere, each
/// step taken away.
pub open spec fn walk(left: Seq<Option<int>>, start: int, cur: int) -> (
    Seq<int>,
    Seq<Option<int>>,
)
    decreases steps_left(left, left.len()),
{
    if !(0 <= cur < left.len()) || left[cur] is None {
        (seq![cur], left)
    } else {
        proof {
            lemma_step_taken(left, cur, left.len());
        }
        let next = left[cur]->0;
        let after = left.update(cur, None);
        if next == start {
            (seq![cur], after)
        } else {
            let rest = walk(after, start, next);
            (seq![cur] + rest.0, rest.1)
        }
    }
}

/// A walk starts where it is told to and uses up a step where there is one.
pub proof fn lemma_walk(left: Seq<Option<int>>, start: int, cur: int)
    ensures
        walk(left, start, cur).0.len() > 0,
        walk(left, start, cur).0[0] == cur,
        walk(left, start, cur).1.len() == left.len(),
        steps_left(walk(left, start, cur).1, left.len()) <= steps_left(left, left.len()),
        0 <= cur < left.len() && left[cur] is Some ==> steps_left(
            walk(left, start, cur).1,
            left.len(),
        ) < steps_left(left, left.len()),
    decreases steps_left(left, left.len()),
{
    if 0 <= cur < left.len() && left[cur] is Some {
        lemma_step_taken(left, cur, left.len());
        lemma_walk(left.update(cur, None), start, left[cur]->0);
    }
}

/// The rings of an outline from a corner on: each walk from the smallest corner left, those
/// with fewer than four corners dropped.
pub open spec fn rings_from(left: Seq<Option<int>>, k: int) -> Seq<Seq<int>>
    decreases steps_left(left, left.len()), left.len() - k,
{
    if k < 0 || k >= left.len() {
        Seq::empty()
    } else if left[k] is None {
        rings_from(left, k + 1)
    } else {
        proof {
            lemma_walk(left, k, k);
        }
        let w = walk(left, k, k);
        if w.0.len() >= 4 {
            seq![w.0] + rings_from(w.1, k)
        } else {
            rings_from(w.1, k)
        }
    }
}

/// Whether every corner of a list is followed by the one its outline leads to.
pub open spec fn follows(left: Seq<Option<int>>, ring: Seq<int>) -> bool {
    forall|j: int|
        0 <= j < ring.len() - 1 ==> 0 <= ring[j] < left.len() && #[trigger] left[ring[j]] == Some(
            ring[j + 1],
        )
}

proof fn lemma_walk_follows(full: Seq<Option<int>>, left: Seq<Option<int>>, start: int, cur: int)
    requires
        full.len() == left.len(),
        forall|k: int|
            0 <= k < left.len() && (#[trigger] left[k]) is Some ==> left[k] == full[k],
    ensures
        follows(full, walk(left, start, cur).0),
        forall|k: int|
            0 <= k < left.len() && (#[trigger] walk(left, start, cur).1[k]) is Some
                ==> walk(left, start, cur).1[k] == full[k],
    decreases steps_left(left, left.len()),
{
    if 0 <= cur < left.len() && left[cur] is Some {
        lemma_step_taken(left, cur, left.len());
        let next = left[cur]->0;
        let after = left.update(cur, None);
        if next != start {
            lemma_walk_follows(full, after, start, next);
            lemma_walk(after, start, next);
            let rest = walk(after, start, next).0;
            let all = walk(left, start, cur).0;
            assert(all == seq![cur] + rest);
            assert forall|j: int| 0 <= j < all.len() - 1 implies 0 <= all[j] < full.len()
                && #[trigger] full[all[j]] == Some(all[j + 1]) by {
                if j > 0 {
                    assert(all[j] == rest[j - 1]);
                    assert(all[j + 1] == rest[j]);
                    assert(full[rest[j - 1]] == Some(rest[j - 1 + 1]));
                } else {
                    assert(all[0] == cur && all[1] == rest[0]);
                }
            }
        }
    }
}

/// Each corner of a ring is followed by the one that the outline leads to, and a ring has
/// at least four corners.
pub proof fn law_rings_follow_the_outline(mask: Seq<bool>, size: int, i: int)
    requires
        0 <= i < rings_from(outline(mask, size), 0).len(),
    ensures
        rings_from(outline(mask, size), 0)[i].len() >= 4,
        follows(outline(mask, size), rings_from(outline(mask, size), 0)[i]),
{
    lemma_rings_follow(outline(mask, size), outline(mask, size), 0, i);
}

proof fn lemma_rings_follow(full: Seq<Option<int>>, left: Seq<Option<int>>, k: int, i: int)
    requires
        full.len() == left.len(),
        forall|c: int|
            0 <= c < left.len() && (#[trigger] left[c]) is Some ==> left[c] == full[c],
        0 <= i < rings_from(left, k).len(),
    ensures
        rings_from(left, k)[i].len() >= 4,
        follows(full, rings_from(left, k)[i]),
    decreases steps_left(left, left.len()), left.len() - k,
{
    if k < 0 || k >= left.len() {
    } else if left[k] is None {
        lemma_rings_follow(full, left, k + 1, i);
    } else {
        lemma_walk(left, k, k);
        lemma_walk_follows(full, left, k, k);
        let w = walk(left, k, k);
        if w.0.len() >= 4 {
            if i > 0 {
                assert(rings_from(left, k)[i] == rings_from(w.1, k)[i - 1]);
                lemma_rings_follow(full, w.1, k, i - 1);
            } else {
                assert(rings_from(left, k)[0] == w.0);
            }
        } else {
            lemma_rings_follow(full, w.1, k, i);
        }
    }
}

fn is_within(mask: &[bool], size: usize, ax: i32, az: i32) -> (r: bool)
    requires
        side_ok(size as int),
        mask@.len() == size * size,
    ensures
        r == within(mask@, size as int, ax as int, az as int),
{
    proof {
        lemma_side(size as int);
    }
    if ax < 0 || az < 0 || ax as usize >= size || az as usize >= size {
        return false;
    }
    proof {
        assert(az * size + ax < size * size) by (nonlinear_arith)
            requires
                0 <= az < size,
                0 <= ax < size,
        ;
        assert(0 <= az * size) by (nonlinear_arith)
            requires
                0 <= az,
                0 < size,
        ;
    }
    mask[az as usize * size + ax as usize]
}

/// The corner at a place, as a number that fits.
fn corner(size: usize, x: usize, z: usize) -> (r: usize)
    requires
        0 < size <= 46340,
        x <= size,
        z <= size,
    ensures
        r == corner_number(size as int, x as int, z as int),
        r < (size + 1) * (size + 1),
{
    proof {
        assert(z * (size + 1) + x < (size + 1) * (size + 1)) by (nonlinear_arith)
            requires
                0 <= z <= size,
                0 <= x <= size,
        ;
        assert((size + 1) * (size + 1) <= 46341 * 46341) by (nonlinear_arith)
            requires
                0 < size <= 46340,
        ;
        assert(0 <= z * (size + 1)) by (nonlinear_arith)
            requires
                0 <= z,
                0 < size,
        ;
    }
    z * (size + 1) + x
}

/// A corner's step as the numbers of the code.
pub open spec fn step_number(s: Option<usize>) -> Option<int> {
    match s {
        Some(k) => Some(k as int),
        None => None,
    }
}

/// The steps of a list as numbers.
pub open spec fn step_numbers(s: Seq<Option<usize>>) -> Seq<Option<int>> {
    Seq::new(s.len(), |k: int| step_number(s[k]))
}

/// The corners of a list as numbers.
pub open spec fn corner_numbers(s: Seq<usize>) -> Seq<int> {
    Seq::new(s.len(), |k: int| s[k] as int)
}

fn step_from(mask: &[bool], size: usize, x: usize, z: usize) -> (r: Option<usize>)
    requires
        side_ok(size as int),
        mask@.len() == size * size,
        x <= size,
        z <= size,
    ensures
        step_number(r) == outline_step(mask@, size as int, x as int, z as int),
        r is Some ==> r->0 < (size + 1) * (size + 1),
{
    proof {
        lemma_side(size as int);
    }
    let xi: i32 = x as i32;
    let zi: i32 = z as i32;
    let here: bool = is_within(mask, size, xi, zi);
    let above: bool = is_within(mask, size, xi, zi - 1);
    let before: bool = is_within(mask, size, xi - 1, zi);
    let corner_cell: bool = is_within(mask, size, xi - 1, zi - 1);
    if here && !above {
        Some(corner(size, x + 1, z))
    } else if before && !here {
        Some(corner(size, x, z + 1))
    } else if above && !corner_cell {
        Some(corner(size, x, z - 1))
    } else if corner_cell && !before {
        Some(corner(size, x - 1, z))
    } else {
        None
    }
}

fn outline_steps(mask: &[bool], size: usize) -> (r: Vec<Option<usize>>)
    requires
        side_ok(size as int),
        mask@.len() == size * size,
    ensures
        step_numbers(r@) == outline(mask@, size as int),
        forall|k: int|
            0 <= k < r@.len() && (#[trigger] r@[k]) is Some ==> r@[k]->0 < r@.len(),
{
    proof {
        lemma_side(size as int);
    }
    proof {
        assert((size + 1) * (size + 1) <= 46341 * 46341) by (nonlinear_arith)
            requires
                0 < size <= 46340,
        ;
    }
    let n: usize = corner(size, size, size) + 1;
    proof {
        assert(corner_number(size as int, size as int, size as int) + 1 == (size + 1) * (size + 1))
            by (nonlinear_arith)
            requires
                corner_number(size as int, size as int, size as int) == size * (size + 1) + size,
        ;
    }
    let mut out: Vec<Option<usize>> = Vec::new();
    let mut k: usize = 0;
    while k < n
        invariant
            k <= n,
            n == (size + 1) * (size + 1),
            side_ok(size as int),
            0 < size <= 46340,
            mask@.len() == size * size,
            out@.len() == k,
            forall|j: int|
                0 <= j < k ==> step_number(#[trigger] out@[j]) == outline_step(
                    mask@,
                    size as int,
                    j % (size + 1),
                    j / (size + 1),
                ),
            forall|j: int| 0 <= j < k && (#[trigger] out@[j]) is Some ==> out@[j]->0 < n,
        decreases n - k,
    {
        let x: usize = k % (size + 1);
        let z: usize = k / (size + 1);
        proof {
            assert(k / ((size + 1) as usize) <= size) by (nonlinear_arith)
                requires
                    k < (size + 1) * (size + 1),
                    size <= 46340,
            ;
        }
        out.push(step_from(mask, size, x, z));
        k += 1;
    }
    assert(step_numbers(out@) =~= outline(mask@, size as int));
    out
}

/// Walks from a corner, taking away each step.
fn trace(left: &mut Vec<Option<usize>>, start: usize) -> (ring: Vec<usize>)
    requires
        start < old(left)@.len(),
        forall|k: int|
            0 <= k < old(left)@.len() && (#[trigger] old(left)@[k]) is Some ==> old(left)@[k]->0
                < old(left)@.len(),
    ensures
        corner_numbers(ring@) == walk(step_numbers(old(left)@), start as int, start as int).0,
        step_numbers(final(left)@) == walk(
            step_numbers(old(left)@),
            start as int,
            start as int,
        ).1,
        final(left)@.len() == old(left)@.len(),
        forall|k: int|
            0 <= k < final(left)@.len() && (#[trigger] final(left)@[k]) is Some
                ==> final(left)@[k]->0 < final(left)@.len(),
{
    let ghost was = step_numbers(left@);
    let mut ring: Vec<usize> = Vec::new();
    let mut cur: usize = start;
    proof {
        assert(corner_numbers(ring@) + walk(was, start as int, start as int).0 =~= walk(
            was,
            start as int,
            start as int,
        ).0);
    }
    loop
        invariant
            start < left@.len(),
            cur < left@.len(),
            left@.len() == was.len(),
            was == step_numbers(old(left)@),
            was.len() == old(left)@.len(),
            forall|k: int|
                0 <= k < left@.len() && (#[trigger] left@[k]) is Some ==> left@[k]->0
                    < left@.len(),
            corner_numbers(ring@) + walk(step_numbers(left@), start as int, cur as int).0 == walk(
                was,
                start as int,
                start as int,
            ).0,
            walk(step_numbers(left@), start as int, cur as int).1 == walk(
                was,
                start as int,
                start as int,
            ).1,
        decreases steps_left(step_numbers(left@), left@.len()),
    {
        let ghost before = step_numbers(left@);
        let ghost so_far = corner_numbers(ring@);
        ring.push(cur);
        assert(corner_numbers(ring@) =~= so_far + seq![cur as int]);
        match left[cur] {
            None => {
                assert(before[cur as int] is None);
                return ring;
            },
            Some(next) => {
                assert(before[cur as int] == Some(next as int));
                proof {
                    lemma_step_taken(before, cur as int, before.len());
                }
                left.set(cur, None);
                assert(step_numbers(left@) =~= before.update(cur as int, None));
                if next == start {
                    return ring;
                }
                assert(so_far + (seq![cur as int] + walk(
                    step_numbers(left@),
                    start as int,
                    next as int,
                ).0) =~= corner_numbers(ring@) + walk(
                    step_numbers(left@),
                    start as int,
                    next as int,
                ).0);
                cur = next;
            },
        }
    }
}

/// The rings as lists of corner numbers.
pub open spec fn ring_numbers(s: Seq<Vec<usize>>) -> Seq<Seq<int>> {
    Seq::new(s.len(), |k: int| corner_numbers(s[k]@))
}

/// The closed outlines of a region: corner lists with the region on the left, taken from
/// the smallest corner on, none with fewer than four corners.
pub fn extract_rings(size: usize, mask: &[bool]) -> (r: Vec<Vec<usize>>)
    requires
        side_ok(size as int),
        mask@.len() == size * size,
    ensures
        ring_numbers(r@) == rings_from(outline(mask@, size as int), 0),
{
    let mut left: Vec<Option<usize>> = outline_steps(mask, size);
    let mut out: Vec<Vec<usize>> = Vec::new();
    let ghost full = outline(mask@, size as int);
    let mut k: usize = 0;
    assert(ring_numbers(out@) + rings_from(step_numbers(left@), 0) =~= rings_from(full, 0));
    while k < left.len()
        invariant
            k <= left@.len(),
            ring_numbers(out@) + rings_from(step_numbers(left@), k as int) == rings_from(full, 0),
            forall|c: int|
                0 <= c < left@.len() && (#[trigger] left@[c]) is Some ==> left@[c]->0
                    < left@.len(),
        decreases steps_left(step_numbers(left@), left@.len()), left@.len() - k,
    {
        let ghost before = step_numbers(left@);
        assert(before[k as int] == step_number(left@[k as int]));
        if left[k].is_none() {
            k += 1;
        } else {
            proof {
                lemma_walk(before, k as int, k as int);
            }
            let ghost so_far = ring_numbers(out@);
            let ring: Vec<usize> = trace(&mut left, k);
            let ghost w = walk(before, k as int, k as int);
            if ring.len() >= 4 {
                out.push(ring);
                assert(ring_numbers(out@) =~= so_far + seq![w.0]);
                assert(so_far + (seq![w.0] + rings_from(w.1, k as int)) =~= ring_numbers(out@)
                    + rings_from(w.1, k as int));
            }
        }
    }
    assert(ring_numbers(out@) =~= rings_from(full, 0));
    out
}

/// The mask of a lake: the cells it lists.
pub open spec fn lake_mask(size: int, cells: Seq<i32>) -> Seq<bool> {
    Seq::new((size * size) as nat, |c: int| cells.contains(c as i32))
}

/// The region of a lake, to be outlined; numbers that are no cells are passed over.
pub fn lake_region(size: usize, cells: &[i32]) -> (r: Vec<bool>)
    requires
        side_ok(size as int),
    ensures
        r@ == lake_mask(size as int, cells@),
{
    proof {
        lemma_side(size as int);
    }
    let count: usize = size * size;
    let mut mask: Vec<bool> = vec![false; count];
    let mut i: usize = 0;
    while i < cells.len()
        invariant
            i <= cells@.len(),
            count == size * size,
            count <= 0x7FFF_FFFF,
            mask@.len() == count,
            forall|c: int|
                0 <= c < count ==> (#[trigger] mask@[c] <==> exists|j: int|
                    0 <= j < i && #[trigger] cells@[j] == c),
        decreases cells@.len() - i,
    {
        let ghost had = mask@;
        let c: i32 = cells[i];
        if c >= 0 && (c as usize) < count {
            mask.set(c as usize, true);
        }
        proof {
            assert forall|d: int| 0 <= d < count implies (#[trigger] mask@[d] <==> exists|j: int|
                0 <= j < i + 1 && #[trigger] cells@[j] == d) by {
                if had[d] {
                    let j = choose|j: int| 0 <= j < i && #[trigger] cells@[j] == d;
                    assert(cells@[j] == d);
                }
                if d == c {
                    assert(cells@[i as int] == d);
                }
            }
        }
        i += 1;
    }
    proof {
        assert forall|c: int| 0 <= c < count implies mask@[c] == cells@.contains(c as i32) by {
            if mask@[c] {
                let j = choose|j: int| 0 <= j < cells@.len() && #[trigger] cells@[j] == c;
                assert(cells@[j] == c as i32);
            }
            if cells@.contains(c as i32) {
                let j = choose|j: int| 0 <= j < cells@.len() && cells@[j] == c as i32;
                assert(cells@[j] == c);
            }
        }
        assert(mask@ =~= lake_mask(size as int, cells@));
    }
    mask
}

/// The mask of a landmass: its cells that no water covers.
pub open spec fn mass_mask(size: int, cells: Seq<i32>, mass_id: Seq<i32>, mass: i32) -> Seq<bool> {
    Seq::new(
        (size * size) as nat,
        |c: int| mass_id[c] == mass && !is_water_biome(cell_biome(cells[c])),
    )
}

/// The region of a landmass, to be outlined by its coast.
pub fn mass_region(size: usize, cells: &[i32], mass_id: &[i32], mass: i32) -> (r: Vec<bool>)
    requires
        side_ok(size as int),
        cells@.len() == size * size,
        mass_id@.len() == size * size,
        forall|c: int| is_cell(size as int, c) ==> cell_valid(#[trigger] cells@[c]),
    ensures
        r@ == mass_mask(size as int, cells@, mass_id@, mass),
{
    proof {
        lemma_side(size as int);
    }
    let count: usize = size * size;
    let mut mask: Vec<bool> = Vec::new();
    while mask.len() < count
        invariant
            mask@.len() <= count,
            count == size * size,
            cells@.len() == size * size,
            mass_id@.len() == size * size,
            forall|c: int| is_cell(size as int, c) ==> cell_valid(#[trigger] cells@[c]),
            forall|c: int|
                0 <= c < mask@.len() ==> #[trigger] mask@[c] == (mass_id@[c] == mass
                    && !is_water_biome(cell_biome(cells@[c]))),
        decreases count - mask@.len(),
    {
        let c: usize = mask.len();
        assert(is_cell(size as int, c as int));
        proof {
            lemma_cell_biome(cells@[c as int]);
        }
        mask.push(mass_id[c] == mass && !is_water(biome(cells[c])));
    }
    assert(mask@ =~= mass_mask(size as int, cells@, mass_id@, mass));
    mask
}

/// The place of the longest ring, the last of equals.
pub open spec fn is_longest(rings: Seq<Seq<int>>, i: int) -> bool {
    &&& 0 <= i < rings.len()
    &&& forall|j: int| 0 <= j < rings.len() ==> (#[trigger] rings[j]).len() <= rings[i].len()
    &&& forall|j: int| i < j < rings.len() ==> (#[trigger] rings[j]).len() < rings[i].len()
}

/// The ring that a lake or a coast is drawn by: the longest of its outlines.
pub fn longest_ring(rings: &[Vec<usize>]) -> (r: Option<usize>)
    ensures
        r is None <==> rings@.len() == 0,
        r is Some ==> is_longest(ring_numbers(rings@), r->0 as int),
{
    if rings.len() == 0 {
        return None;
    }
    let ghost all = ring_numbers(rings@);
    let mut best: usize = 0;
    let mut i: usize = 1;
    while i < rings.len()
        invariant
            1 <= i <= rings@.len(),
            best < i,
            all == ring_numbers(rings@),
            forall|j: int| 0 <= j < i ==> (#[trigger] all[j]).len() <= all[best as int].len(),
            forall|j: int| best < j < i ==> (#[trigger] all[j]).len() < all[best as int].len(),
        decreases rings@.len() - i,
    {
        assert(all[i as int].len() == rings@[i as int]@.len());
        assert(all[best as int].len() == rings@[best as int]@.len());
        if rings[i].len() >= rings[best].len() {
            best = i;
        }
        i += 1;
    }
    Some(best)
}

/// An outline leads from a corner to one next to it, between a cell of the region and one
/// outside it, always with the region on the same hand.
pub proof fn law_outlines_run_along_the_region(mask: Seq<bool>, size: int, x: int, z: int)
    requires
        outline_step(mask, size, x, z) is Some,
        size > 0,
    ensures
        ({
            let to = outline_step(mask, size, x, z)->0;
            let below = within(mask, size, x, z);
            let before = within(mask, size, x - 1, z);
            let above = within(mask, size, x, z - 1);
            let behind = within(mask, size, x - 1, z - 1);
            &&& to == corner_number(size, x + 1, z) || to == corner_number(size, x - 1, z) || to
                == corner_number(size, x, z + 1) || to == corner_number(size, x, z - 1)
            &&& below || before || above || behind
            &&& !(below && before && above && behind)
            &&& to == corner_number(size, x + 1, z) && size > 1 ==> below && !above
            &&& to == corner_number(size, x - 1, z) && size > 1 ==> behind && !before
            &&& to == corner_number(size, x, z + 1) && size > 1 ==> before && !below
            &&& to == corner_number(size, x, z - 1) && size > 1 ==> above && !behind
        }),
{
    assert((z + 1) * (size + 1) == z * (size + 1) + size + 1) by (nonlinear_arith);
    assert((z - 1) * (size + 1) == z * (size + 1) - size - 1) by (nonlinear_arith);
}

/// Every cell of a region that has the outside above it starts an outline along its top.
pub proof fn law_tops_are_outlined(mask: Seq<bool>, size: int, x: int, z: int)
    requires
        within(mask, size, x, z),
        !within(mask, size, x, z - 1),
    ensures
        outline_step(mask, size, x, z) == Some(corner_number(size, x + 1, z)),
{
}

} // verus!
