//! Where lakes are tried: a jittered raster first, then random spots, until there are
//! enough of them.

use crate::atlas::grid::side_ok;
use crate::atlas::landmask::{collar_cells, collar_of};
use crate::rng::{drawn, fraction_of, rng_fraction, rng_past, rng_range, Draw};
use rand_chacha::ChaCha8Rng;
use vstd::prelude::*;

verus! {

/// How many lakes an atlas of a size is to have.
pub open spec fn lakes_wanted(size: int) -> int {
    if 22 * size / 1000 > 4 {
        22 * size / 1000
    } else {
        4
    }
}

/// How far from the border lakes are kept.
pub open spec fn lake_collar(size: int) -> int {
    if collar_of(size) + 4 >= size / 2 {
        if size / 8 > 2 {
            size / 8
        } else {
            2
        }
    } else {
        collar_of(size) + 4
    }
}

/// The step of the raster.
pub open spec fn lake_step(size: int) -> int {
    if size / lakes_wanted(size) > 10 {
        size / lakes_wanted(size)
    } else {
        10
    }
}

/// What is planned for a size.
#[derive(Clone, Copy, Debug, PartialEq, Eq, Structural)]
pub struct LakePlan {
    pub size: i32,
    pub want: i32,
    pub collar: i32,
    pub step: i32,
}

impl LakePlan {
    /// A plan for a size that leaves room inside the collar.
    pub open spec fn well_formed(self) -> bool {
        &&& side_ok(self.size as int)
        &&& self.size >= 5
        &&& self.want == lakes_wanted(self.size as int)
        &&& self.collar == lake_collar(self.size as int)
        &&& self.step == lake_step(self.size as int)
    }

    pub fn new(size: usize) -> (r: Self)
        requires
            side_ok(size as int),
            size >= 5,
        ensures
            r.well_formed(),
            r.size == size,
            0 < r.collar,
            2 * r.collar < r.size,
            10 <= r.step,
    {
        let n: i32 = size as i32;
        let want: i32 = if 22 * n / 1000 > 4 {
            22 * n / 1000
        } else {
            4
        };
        let near: i32 = collar_cells(size) + 4;
        let collar: i32 = if near >= n / 2 {
            if n / 8 > 2 {
                n / 8
            } else {
                2
            }
        } else {
            near
        };
        let step: i32 = if n / want > 10 {
            n / want
        } else {
            10
        };
        LakePlan { size: n, want, collar, step }
    }
}

/// `v` held between `lo` and `hi`.
pub open spec fn held_between(v: int, lo: int, hi: int) -> int {
    if v < lo {
        lo
    } else if v > hi {
        hi
    } else {
        v
    }
}

/// A raster coordinate moved by a draw of up to a third of the step, kept off the
/// collar.
pub open spec fn jittered(p: LakePlan, at: int, draw: int) -> int {
    held_between(at + draw, p.collar as int, p.size - p.collar - 1)
}

/// The draw that moves a raster coordinate.
pub open spec fn jitter_draw(p: LakePlan) -> Draw {
    Draw::Signed { lo: (-(p.step / 3)) as i32, hi: (p.step / 3 + 1) as i32 }
}

/// The draw of a random coordinate.
pub open spec fn spot_draw(p: LakePlan) -> Draw {
    Draw::Signed { lo: p.collar, hi: (p.size - p.collar) as i32 }
}

fn jitter(p: LakePlan, at: i32, rng: &mut ChaCha8Rng) -> (r: i32)
    requires
        p.well_formed(),
        0 < p.collar,
        2 * p.collar < p.size,
        10 <= p.step <= 100000,
        0 <= at <= 200000,
    ensures
        r == jittered(
            p,
            at as int,
            drawn(rng_past(*old(rng)).0, rng_past(*old(rng)).1, jitter_draw(p)),
        ),
        p.collar <= r < p.size - p.collar,
        rng_past(*final(rng)).0 == rng_past(*old(rng)).0,
        rng_past(*final(rng)).1 == rng_past(*old(rng)).1.push(jitter_draw(p)),
{
    let third: i32 = p.step / 3;
    let draw: i32 = rng_range(rng, -third, third + 1);
    let v: i32 = at + draw;
    let hi: i32 = p.size - p.collar - 1;
    if v < p.collar {
        p.collar
    } else if v > hi {
        hi
    } else {
        v
    }
}

/// How far the search for lake sites has come.
#[derive(Clone, Copy, Debug, PartialEq, Eq, Structural)]
pub struct LakeSearch {
    /// The next raster spot, while the raster lasts.
    pub ax: i32,
    pub az: i32,
    /// Random spots tried so far.
    pub scans: i64,
}

/// What the search does next.
#[derive(Clone, Copy, Debug, PartialEq, Eq, Structural)]
pub enum Next {
    Raster,
    Random,
    Done,
}

impl LakeSearch {
    pub open spec fn first(p: LakePlan) -> LakeSearch {
        LakeSearch {
            ax: (p.collar + p.step / 2) as i32,
            az: (p.collar + p.step / 2) as i32,
            scans: 0,
        }
    }

    /// A raster column that starts anew may already be past the collar: then the
    /// raster is over.
    pub open spec fn on_raster(self, p: LakePlan) -> bool {
        self.ax < p.size - p.collar && p.collar + p.step / 2 < p.size - p.collar
    }

    /// What comes next while there are `lakes` of them.
    pub open spec fn next_of(self, p: LakePlan, lakes: int) -> Next {
        if lakes >= p.want {
            Next::Done
        } else if self.on_raster(p) {
            Next::Raster
        } else if self.scans < p.size * 4 {
            Next::Random
        } else {
            Next::Done
        }
    }

    /// The state after a spot was handed out.
    pub open spec fn moved(self, p: LakePlan, how: Next) -> LakeSearch {
        match how {
            Next::Raster => if self.az + p.step < p.size - p.collar {
                LakeSearch { az: (self.az + p.step) as i32, ..self }
            } else {
                LakeSearch {
                    ax: (self.ax + p.step) as i32,
                    az: (p.collar + p.step / 2) as i32,
                    ..self
                }
            },
            Next::Random => LakeSearch { scans: (self.scans + 1) as i64, ..self },
            Next::Done => self,
        }
    }

    /// The spot that is handed out, from the draws of a generator.
    pub open spec fn spot(self, p: LakePlan, how: Next, seed: u64, past: Seq<Draw>) -> Option<
        (int, int),
    > {
        match how {
            Next::Raster => Some(
                (
                    jittered(p, self.ax as int, drawn(seed, past, jitter_draw(p))),
                    jittered(
                        p,
                        self.az as int,
                        drawn(seed, past.push(jitter_draw(p)), jitter_draw(p)),
                    ),
                ),
            ),
            Next::Random => Some(
                (
                    drawn(seed, past, spot_draw(p)),
                    drawn(seed, past.push(spot_draw(p)), spot_draw(p)),
                ),
            ),
            Next::Done => None,
        }
    }

    /// The draws after a spot was handed out.
    pub open spec fn drawn_for(how: Next, p: LakePlan, past: Seq<Draw>) -> Seq<Draw> {
        match how {
            Next::Raster => past.push(jitter_draw(p)).push(jitter_draw(p)),
            Next::Random => past.push(spot_draw(p)).push(spot_draw(p)),
            Next::Done => past,
        }
    }

    pub fn start(p: LakePlan) -> (r: Self)
        requires
            p.well_formed(),
            0 < p.collar,
            2 * p.collar < p.size,
            10 <= p.step <= 100000,
        ensures
            r == LakeSearch::first(p),
    {
        LakeSearch { ax: p.collar + p.step / 2, az: p.collar + p.step / 2, scans: 0 }
    }

    /// The next spot to try for a lake while there are `lakes` of them; nothing once
    /// there are enough or the search is over.
    pub fn next_site(&mut self, p: LakePlan, lakes: usize, rng: &mut ChaCha8Rng) -> (r: Option<
        (i32, i32),
    >)
        requires
            p.well_formed(),
            0 < p.collar,
            2 * p.collar < p.size,
            10 <= p.step <= 100000,
            0 <= old(self).ax <= 200000,
            0 <= old(self).az <= 200000,
            0 <= old(self).scans,
        ensures
            ({
                let how = old(self).next_of(p, lakes as int);
                let past = rng_past(*old(rng));
                let spot = old(self).spot(p, how, past.0, past.1);
                &&& *final(self) == old(self).moved(p, how)
                &&& (r is Some) == (how != Next::Done)
                &&& r is Some ==> spot == Some(((r->0).0 as int, (r->0).1 as int))
                &&& r is Some ==> p.collar <= (r->0).0 < p.size - p.collar && p.collar <= (r->0).1
                    < p.size - p.collar
                &&& rng_past(*final(rng)).0 == past.0
                &&& rng_past(*final(rng)).1 == LakeSearch::drawn_for(how, p, past.1)
            }),
    {
        if lakes >= p.want as usize {
            return None;
        }
        let was: LakeSearch = *self;
        if was.ax < p.size - p.collar && p.collar + p.step / 2 < p.size - p.collar {
            let x: i32 = jitter(p, was.ax, rng);
            let z: i32 = jitter(p, was.az, rng);
            if was.az + p.step < p.size - p.collar {
                *self = LakeSearch { az: was.az + p.step, ..was };
            } else {
                *self = LakeSearch { ax: was.ax + p.step, az: p.collar + p.step / 2, ..was };
            }
            return Some((x, z));
        }
        if was.scans < p.size as i64 * 4 {
            let x: i32 = rng_range(rng, p.collar, p.size - p.collar);
            let z: i32 = rng_range(rng, p.collar, p.size - p.collar);
            *self = LakeSearch { scans: was.scans + 1, ..was };
            return Some((x, z));
        }
        None
    }
}

/// The draw above which a lake is given up where the ground is no hollow.
pub const HOLLOW_DRAW: u32 = 5_872_025;

/// Whether a lake is tried at a spot: always in a hollow, elsewhere by a draw.
pub open spec fn lake_tried(low: bool, draw: int) -> bool {
    low || draw <= HOLLOW_DRAW
}

/// Whether a lake is tried at a spot. Nothing is drawn in a hollow.
pub fn try_hollow(low: bool, rng: &mut ChaCha8Rng) -> (r: bool)
    ensures
        r == lake_tried(
            low,
            fraction_of(drawn(rng_past(*old(rng)).0, rng_past(*old(rng)).1, Draw::Word)),
        ),
        rng_past(*final(rng)).0 == rng_past(*old(rng)).0,
        rng_past(*final(rng)).1 == if low {
            rng_past(*old(rng)).1
        } else {
            rng_past(*old(rng)).1.push(Draw::Word)
        },
{
    if low {
        return true;
    }
    rng_fraction(rng) <= HOLLOW_DRAW
}

} // verus!
