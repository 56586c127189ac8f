//! Alpine massifs: which cells of the crests carry one, in which order they are tried,
//! and what a massif must look like.

use crate::atlas::grid::{cell_number, inside, is_cell, lemma_side, side_ok};
use crate::measure::{Real32, INFINITE32};
use vstd::prelude::*;

verus! {

/// Candidates are the best cell of each block of four by four.
pub const CANDIDATE_BLOCK_CELLS: usize = 4;

pub const MIN_ELEVATION_CODE: u8 = 155;

pub const MIN_RELIEF_CODE: u8 = 28;

pub const MAX_MASSIFS: usize = 512;

pub const MAX_RIDGES: usize = 8;

pub const MIN_RIDGES: usize = 4;

/// The places of 80, 1200, 220, 2800, twelve and seventy hundredths, 250, ninety-eight
/// and one hundred and two hundredths.
pub const RIDGE_LENGTH: i64 = 0x42a0_0000;

pub const TOP_HEIGHT: i64 = 0x4496_0000;

pub const LEAST_HALF: i64 = 0x435c_0000;

pub const MOST_HALF: i64 = 0x452f_0000;

pub const LEAST_BREAK: i64 = 0x3df5_c28f;

pub const MOST_BREAK: i64 = 0x3f33_3333;

pub const LEAST_PROMINENCE: i64 = 0x437a_0000;

pub const SHORT_AXIS: i64 = 0x3f7a_e148;

pub const LONG_AXIS: i64 = 0x3f82_8f5c;

/// A ridge from `a` to `b`.
#[derive(Clone, Copy, Debug, PartialEq, Eq, Structural)]
pub struct AlpineRidgeSeed {
    pub ax_m: Real32,
    pub az_m: Real32,
    pub bx_m: Real32,
    pub bz_m: Real32,
    pub height_a_m: Real32,
    pub height_b_m: Real32,
    pub left_half_m: Real32,
    pub right_half_m: Real32,
    pub break01: Real32,
}

impl AlpineRidgeSeed {
    /// All numbers finite, the length at least 80 metres, neither too high nor too wide.
    pub open spec fn valid(self, length_m: Real32) -> bool {
        &&& self.ax_m.finite() && self.az_m.finite() && self.bx_m.finite() && self.bz_m.finite()
        &&& length_m.bits <= INFINITE32 && length_m.place() >= RIDGE_LENGTH
        &&& self.height_a_m.between(0, TOP_HEIGHT as int)
        &&& self.height_b_m.between(0, TOP_HEIGHT as int)
        &&& self.left_half_m.between(LEAST_HALF as int, MOST_HALF as int)
        &&& self.right_half_m.between(LEAST_HALF as int, MOST_HALF as int)
        &&& self.break01.between(LEAST_BREAK as int, MOST_BREAK as int)
    }

    /// Whether the ridge is sound; `length_m` is how long it is.
    pub fn is_valid(&self, length_m: Real32) -> (r: bool)
        ensures
            r == self.valid(length_m),
    {
        self.ax_m.is_finite() && self.az_m.is_finite() && self.bx_m.is_finite()
            && self.bz_m.is_finite() && length_m.bits <= INFINITE32 && length_m.rank() >= RIDGE_LENGTH
            && self.height_a_m.is_between(0, TOP_HEIGHT) && self.height_b_m.is_between(
            0,
            TOP_HEIGHT,
        ) && self.left_half_m.is_between(LEAST_HALF, MOST_HALF) && self.right_half_m.is_between(
            LEAST_HALF,
            MOST_HALF,
        ) && self.break01.is_between(LEAST_BREAK, MOST_BREAK)
    }
}

/// A massif: where it stands, how it lies and its ridges.
#[derive(Clone, Debug)]
pub struct AlpineMassifSeed {
    pub centre_x_m: Real32,
    pub centre_z_m: Real32,
    pub crest_axis_x: Real32,
    pub crest_axis_z: Real32,
    pub prominence_m: Real32,
    pub summit_along_offset_m: Real32,
    pub summit_across_offset_m: Real32,
    pub ridges: Vec<AlpineRidgeSeed>,
}

impl AlpineMassifSeed {
    /// Inside the world, with an axis of about unit length, a prominence of 250 to
    /// 1200 metres and four to eight sound ridges.
    pub open spec fn valid(&self, extent_m: Real32, axis_sq: Real32, lengths: Seq<Real32>) -> bool {
        &&& self.summit_along_offset_m.finite() && self.summit_across_offset_m.finite()
        &&& self.crest_axis_x.finite() && self.crest_axis_z.finite()
        &&& self.centre_x_m.finite() && 0 <= self.centre_x_m.place() < extent_m.place()
        &&& self.centre_z_m.finite() && 0 <= self.centre_z_m.place() < extent_m.place()
        &&& axis_sq.between(SHORT_AXIS as int, LONG_AXIS as int)
        &&& self.prominence_m.between(LEAST_PROMINENCE as int, TOP_HEIGHT as int)
        &&& MIN_RIDGES <= self.ridges@.len() <= MAX_RIDGES
        &&& forall|i: int|
            0 <= i < self.ridges@.len() ==> (#[trigger] self.ridges@[i]).valid(lengths[i])
    }

    /// Whether the massif is sound. `axis_sq` is the square of its axis's length,
    /// `lengths` are those of its ridges.
    pub fn is_valid(&self, extent_m: Real32, axis_sq: Real32, lengths: &[Real32]) -> (r: bool)
        requires
            extent_m.finite(),
            lengths@.len() == self.ridges@.len(),
        ensures
            r == self.valid(extent_m, axis_sq, lengths@),
    {
        let top: i64 = extent_m.rank();
        if !(self.summit_along_offset_m.is_finite() && self.summit_across_offset_m.is_finite()
            && self.crest_axis_x.is_finite() && self.crest_axis_z.is_finite()) {
            return false;
        }
        if !(self.centre_x_m.is_finite() && 0 <= self.centre_x_m.rank() && self.centre_x_m.rank()
            < top) {
            return false;
        }
        if !(self.centre_z_m.is_finite() && 0 <= self.centre_z_m.rank() && self.centre_z_m.rank()
            < top) {
            return false;
        }
        if !axis_sq.is_between(SHORT_AXIS, LONG_AXIS) || !self.prominence_m.is_between(
            LEAST_PROMINENCE,
            TOP_HEIGHT,
        ) {
            return false;
        }
        let n: usize = self.ridges.len();
        if n < MIN_RIDGES || n > MAX_RIDGES {
            return false;
        }
        let mut i: usize = 0;
        while i < n
            invariant
                i <= n,
                n == self.ridges@.len(),
                n == lengths@.len(),
                forall|j: int|
                    0 <= j < i ==> (#[trigger] self.ridges@[j]).valid(lengths@[j]),
            decreases n - i,
        {
            if !self.ridges[i].is_valid(lengths[i]) {
                assert(!self.ridges@[i as int].valid(lengths@[i as int]));
                return false;
            }
            i += 1;
        }
        true
    }
}

/// What massifs are placed by, cell by cell.
pub struct MassifSource<'a> {
    pub size: usize,
    pub land: &'a [u8],
    pub lake_id: &'a [i32],
    pub elev_code: &'a [u8],
    pub relief: &'a [u8],
    /// Near a crest, off its passes, on drawn land.
    pub on_crest: &'a [bool],
    /// The rank of the cell's score: better cells have greater ranks.
    pub score: &'a [i64],
}

impl<'a> MassifSource<'a> {
    pub open spec fn well_formed(&self) -> bool {
        &&& side_ok(self.size as int)
        &&& self.land@.len() == self.size * self.size
        &&& self.lake_id@.len() == self.size * self.size
        &&& self.elev_code@.len() == self.size * self.size
        &&& self.relief@.len() == self.size * self.size
        &&& self.on_crest@.len() == self.size * self.size
        &&& self.score@.len() == self.size * self.size
    }

    /// Whether a cell may carry a massif: dry, high and rugged land on a crest.
    pub open spec fn open_cell(&self, c: int) -> bool {
        &&& self.land@[c] != 0
        &&& self.lake_id@[c] < 0
        &&& self.elev_code@[c] >= MIN_ELEVATION_CODE
        &&& self.relief@[c] >= MIN_RELIEF_CODE
        &&& self.on_crest@[c]
    }

    /// The best of the first `k` cells of a block, the first of equals; cells are
    /// counted row by row.
    pub open spec fn best_upto(&self, bx: int, bz: int, k: nat) -> Option<int>
        decreases k,
    {
        if k == 0 {
            None
        } else {
            let best = self.best_upto(bx, bz, (k - 1) as nat);
            let ax = bx + (k - 1) % 4;
            let az = bz + (k - 1) / 4;
            let c = cell_number(self.size as int, ax, az);
            if !inside(self.size as int, ax, az) || !self.open_cell(c) {
                best
            } else {
                match best {
                    Some(b) => if self.score@[c] > self.score@[b] {
                        Some(c)
                    } else {
                        best
                    },
                    None => Some(c),
                }
            }
        }
    }

    fn block_best(&self, bx: i32, bz: i32) -> (r: Option<usize>)
        requires
            self.well_formed(),
            0 <= bx < self.size,
            0 <= bz < self.size,
        ensures
            match self.best_upto(bx as int, bz as int, 16) {
                Some(c) => r == Some(c as usize) && is_cell(self.size as int, c),
                None => r is None,
            },
    {
        let mut best: Option<usize> = None;
        let mut k: i32 = 0;
        proof {
            lemma_side(self.size as int);
        }
        while k < 16
            invariant
                0 <= k <= 16,
                self.well_formed(),
                self.size <= 46340,
                0 <= bx < self.size,
                0 <= bz < self.size,
                match self.best_upto(bx as int, bz as int, k as nat) {
                    Some(c) => best == Some(c as usize) && is_cell(self.size as int, c),
                    None => best is None,
                },
            decreases 16 - k,
        {
            let ax: i32 = bx + k % 4;
            let az: i32 = bz + k / 4;
            if crate::atlas::grid::in_bounds(ax, az, self.size) {
                let c: usize = crate::atlas::grid::index_of(ax, az, self.size);
                let open: bool = self.land[c] != 0 && self.lake_id[c] < 0 && self.elev_code[c]
                    >= MIN_ELEVATION_CODE && self.relief[c] >= MIN_RELIEF_CODE && self.on_crest[c];
                if open {
                    match best {
                        Some(b) => {
                            if self.score[c] > self.score[b] {
                                best = Some(c);
                            }
                        },
                        None => {
                            best = Some(c);
                        },
                    }
                }
            }
            k += 1;
        }
        best
    }

    /// How many blocks lie along a side.
    pub open spec fn blocks(&self) -> int {
        (self.size + 3) / 4
    }

    /// Whether `a` is tried before `b`: a better score, or an equal one and a smaller
    /// number.
    pub open spec fn beats(&self, a: usize, b: usize) -> bool {
        self.score@[a as int] > self.score@[b as int] || (self.score@[a as int]
            == self.score@[b as int] && a < b)
    }

    /// A row of candidates after one more took its place.
    pub open spec fn row_with(&self, row: Seq<usize>, c: usize) -> Seq<usize>
        decreases row.len(),
    {
        if row.len() == 0 || !self.beats(c, row.last()) {
            row.push(c)
        } else {
            self.row_with(row.drop_last(), c).push(row.last())
        }
    }

    /// The candidates of the first `n` blocks, in the order they are tried.
    pub open spec fn row_of(&self, n: nat) -> Seq<usize>
        decreases n,
    {
        if n == 0 {
            Seq::empty()
        } else {
            let rest = self.row_of((n - 1) as nat);
            let b = self.blocks();
            match self.best_upto(4 * ((n - 1) % b), 4 * ((n - 1) / b), 16) {
                Some(c) => self.row_with(rest, c as usize),
                None => rest,
            }
        }
    }

    proof fn lemma_row_with(&self, row: Seq<usize>, c: usize, at: int)
        requires
            0 <= at <= row.len(),
            at == 0 || !self.beats(c, row[at - 1]),
            forall|k: int| at <= k < row.len() ==> self.beats(c, #[trigger] row[k]),
        ensures
            self.row_with(row, c) == row.insert(at, c),
        decreases row.len(),
    {
        if at < row.len() {
            let rest = row.drop_last();
            assert forall|k: int| at <= k < rest.len() implies self.beats(
                c,
                #[trigger] rest[k],
            ) by {
                assert(rest[k] == row[k]);
            }
            assert(at > 0 ==> rest[at - 1] == row[at - 1]);
            self.lemma_row_with(rest, c, at);
            assert(self.beats(c, row[row.len() - 1]));
            assert(self.row_with(row, c) =~= row.insert(at, c));
        } else {
            assert(self.row_with(row, c) =~= row.insert(at, c));
        }
    }

    /// The cells massifs are tried on, best first.
    pub fn candidates(&self) -> (row: Vec<usize>)
        requires
            self.well_formed(),
        ensures
            row@ == self.row_of((self.blocks() * self.blocks()) as nat),
            forall|i: int| 0 <= i < row@.len() ==> is_cell(self.size as int, #[trigger] row@[i] as int),
    {
        proof {
            lemma_side(self.size as int);
        }
        let b: usize = (self.size + 3) / 4;
        let mut row: Vec<usize> = Vec::new();
        let mut n: usize = 0;
        assert(b * b <= 12000 * 12000) by (nonlinear_arith)
            requires
                b <= 12000,
        ;
        while n < b * b
            invariant
                n <= b * b <= 144_000_000,
                self.well_formed(),
                b == self.blocks(),
                0 < b <= 12000,
                row@ == self.row_of(n as nat),
                forall|i: int|
                    0 <= i < row@.len() ==> is_cell(self.size as int, #[trigger] row@[i] as int),
            decreases b * b - n,
        {
            proof {
                assert(n / b < b) by (nonlinear_arith)
                    requires
                        n < b * b,
                        0 < b,
                ;
                assert(n % b < b);
            }
            let bx: i32 = (4 * (n % b)) as i32;
            let bz: i32 = (4 * (n / b)) as i32;
            match self.block_best(bx, bz) {
                Some(c) => {
                    let mut at: usize = row.len();
                    while at > 0 && (self.score[c] > self.score[row[at - 1]] || (self.score[c]
                        == self.score[row[at - 1]] && c < row[at - 1]))
                        invariant
                            at <= row@.len(),
                            self.well_formed(),
                            is_cell(self.size as int, c as int),
                            forall|i: int|
                                0 <= i < row@.len() ==> is_cell(
                                    self.size as int,
                                    #[trigger] row@[i] as int,
                                ),
                            forall|k: int|
                                at <= k < row@.len() ==> self.beats(c, #[trigger] row@[k]),
                        decreases at,
                    {
                        at -= 1;
                    }
                    proof {
                        self.lemma_row_with(row@, c, at as int);
                    }
                    row.insert(at, c);
                },
                None => {},
            }
            n += 1;
        }
        row
    }
}

/// The seed of a massif's generator: the layer's, stirred with the cell.
pub open spec fn massif_word(seed: u64, ax: u64, az: u64) -> u64 {
    seed ^ ax.wrapping_mul(0x9E37_79B9) ^ az.wrapping_mul(0x85EB_CA6B)
}

pub fn massif_seed(seed: u64, ax: u64, az: u64) -> (r: u64)
    ensures
        r == massif_word(seed, ax, az),
{
    seed ^ ax.wrapping_mul(0x9E37_79B9) ^ az.wrapping_mul(0x85EB_CA6B)
}

/// Whether a candidate becomes a massif: there is room for one more, no other is too
/// near, it has ridges enough and its summit is on land.
pub fn massif_kept(accepted: usize, too_near: bool, ridges: usize, summit_on_land: bool) -> (r:
    bool)
    ensures
        r == (accepted < MAX_MASSIFS && !too_near && ridges >= MIN_RIDGES && summit_on_land),
{
    accepted < MAX_MASSIFS && !too_near && ridges >= MIN_RIDGES && summit_on_land
}

/// A sound massif stands in the world with four to eight ridges, each sound and 80 metres long
/// at the least; nothing of it is higher than 1200 metres, and it rises 250 at the least.
pub proof fn law_sound_massifs(
    m: AlpineMassifSeed,
    extent_m: Real32,
    axis_sq: Real32,
    lengths: Seq<Real32>,
    i: int,
)
    requires
        m.valid(extent_m, axis_sq, lengths),
        0 <= i < m.ridges@.len(),
    ensures
        4 <= m.ridges@.len() <= 8,
        0 <= m.centre_x_m.place() < extent_m.place(),
        0 <= m.centre_z_m.place() < extent_m.place(),
        0x437a_0000 <= m.prominence_m.place() <= 0x4496_0000,
        lengths[i].place() >= 0x42a0_0000,
        0 <= m.ridges@[i].height_a_m.place() <= 0x4496_0000,
        0 <= m.ridges@[i].height_b_m.place() <= 0x4496_0000,
        0x435c_0000 <= m.ridges@[i].left_half_m.place() <= 0x452f_0000,
        0x435c_0000 <= m.ridges@[i].right_half_m.place() <= 0x452f_0000,
{
    assert(m.ridges@[i].valid(lengths[i]));
}

} // verus!
