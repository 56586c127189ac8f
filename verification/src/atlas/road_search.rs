//! Cheapest overland routes between cells, by A* search.

use crate::atlas::biomes::Biome;
use crate::atlas::drainage::wet;
use crate::atlas::grid::{
    adjacent, cell_list, cell_x, cell_z, is_cell, neighbor, side_ok, step, lemma_cell_coords,
    lemma_coords_of_number, lemma_distinct_len, lemma_side, lemma_step, lemma_step_coords,
};
use crate::atlas::open_heap::{comes_first, OpenHeap};
use crate::atlas::pack::{
    biome, cell_biome_id, cell_pop, cell_relief, cell_valid, population, relief, lemma_field_ranges,
};
use crate::rounding::{
    grain_of, law_rounding_keeps_side, law_rounding_settles, law_rounding_stays_close,
    law_steps_add_up, lemma_grain_of, round_single, single, SINGLE,
};
use vstd::arithmetic::power2::lemma2_to64;
use vstd::multiset::Multiset;
use vstd::prelude::*;

verus! {

/// A cost of one, in parts of 2^32. Costs keep 24 significant bits.
pub const ROAD_ONE: i64 = 0x1_0000_0000;

/// What a step costs to begin with: 1.45.
pub const STEP_BASE: i64 = 6_227_702_784;

/// What a code of relief costs: 0.06.
pub const STEP_RELIEF: i64 = 257_698_032;

/// What a code climbed or dropped costs: 0.08.
pub const STEP_CLIMB: i64 = 343_597_376;

/// What a step in the mountains costs more: 0.5.
pub const STEP_ALPINE: i64 = 2_147_483_648;

/// What a step into a river costs more: 0.55.
pub const STEP_RIVER: i64 = 2_362_232_064;

/// What a step beside a river costs less: 0.2.
pub const STEP_BANK: i64 = 858_993_472;

/// What a step costs less for each step of population: 0.035.
pub const STEP_PEOPLE: i64 = 150_323_856;

/// The most that population takes off: 0.45.
pub const STEP_PEOPLE_MOST: i64 = 1_932_735_232;

/// The land that roads are laid over.
pub struct RoadField<'a> {
    pub size: usize,
    pub cells: &'a [i32],
    pub elev_code: &'a [u8],
    pub river_adjacent: &'a [u8],
    pub river_channel: &'a [u8],
}

/// The land that roads are laid over, as sequences.
pub ghost struct RoadView {
    pub size: int,
    pub cells: Seq<i32>,
    pub elev_code: Seq<u8>,
    pub river_adjacent: Seq<u8>,
    pub river_channel: Seq<u8>,
}

impl View for RoadField<'_> {
    type V = RoadView;

    open spec fn view(&self) -> RoadView {
        RoadView {
            size: self.size as int,
            cells: self.cells@,
            elev_code: self.elev_code@,
            river_adjacent: self.river_adjacent@,
            river_channel: self.river_channel@,
        }
    }
}

impl RoadView {
    pub open spec fn well_formed(self) -> bool {
        let n2 = self.size * self.size;
        &&& side_ok(self.size)
        &&& self.cells.len() == n2
        &&& self.elev_code.len() == n2
        &&& self.river_adjacent.len() == n2
        &&& self.river_channel.len() == n2
        &&& forall|c: int| is_cell(self.size, c) ==> cell_valid(#[trigger] self.cells[c])
    }

    /// Cost of a step onto `to` from its neighbour `from`: 1.45, more for relief, for each
    /// code climbed or dropped, in the mountains and in a river, less beside one and for
    /// population, and never under one. Each sum and product is rounded.
    #[verifier::opaque]
    pub open spec fn step_cost(self, from: int, to: int) -> int {
        let climb = self.elev_code[to] - self.elev_code[from];
        let height = if climb < 0 {
            -climb
        } else {
            climb
        };
        let rough = single(STEP_BASE + single(cell_relief(self.cells[to]) * STEP_RELIEF));
        let steep = single(rough + single(height * STEP_CLIMB));
        let high = if cell_biome_id(self.cells[to]) == 6 {
            single(steep + STEP_ALPINE)
        } else {
            steep
        };
        let damp = if self.river_channel[to] != 0 {
            single(high + STEP_RIVER)
        } else if self.river_adjacent[to] != 0 {
            single(high - STEP_BANK)
        } else {
            high
        };
        let people = single(cell_pop(self.cells[to]) * STEP_PEOPLE);
        let cost = single(
            damp - if people < STEP_PEOPLE_MOST {
                people
            } else {
                STEP_PEOPLE_MOST as int
            },
        );
        if cost < ROAD_ONE {
            ROAD_ONE as int
        } else {
            cost
        }
    }

    /// A way over neighbouring cells, on land after the first.
    pub open spec fn is_route(self, start: int, goal: int, p: Seq<int>) -> bool {
        &&& p.len() > 0
        &&& p[0] == start
        &&& p.last() == goal
        &&& forall|i: int| 0 <= i < p.len() ==> is_cell(self.size, #[trigger] p[i])
        &&& forall|i: int|
            0 < i < p.len() ==> adjacent(self.size, p[i - 1], #[trigger] p[i]) && !wet(
                self.cells,
                p[i],
            )
    }

    /// Cost of a way, its steps added up exactly.
    pub open spec fn route_cost(self, p: Seq<int>) -> int
        decreases p.len(),
    {
        if p.len() <= 1 {
            0
        } else {
            self.route_cost(p.drop_last()) + self.step_cost(p[p.len() - 2], p[p.len() - 1])
        }
    }

    /// Cost of a way as the search adds it up, each sum rounded.
    pub open spec fn route_sum(self, p: Seq<int>) -> int
        decreases p.len(),
    {
        if p.len() <= 1 {
            0
        } else {
            single(
                self.route_sum(p.drop_last()) + self.step_cost(p[p.len() - 2], p[p.len() - 1]),
            )
        }
    }

    /// The least a way between two cells can cost: one for each row and column between
    /// them.
    pub open spec fn estimate(self, goal: int, c: int) -> int {
        let dx = cell_x(self.size, c) - cell_x(self.size, goal);
        let dz = cell_z(self.size, c) - cell_z(self.size, goal);
        ROAD_ONE * ((if dx < 0 { -dx } else { dx }) + (if dz < 0 { -dz } else { dz }))
    }

    /// A cost is no more than the way `q` costs, but for what rounding may add: one part in
    /// 2^18 of the cost for each cell of `q`.
    pub open spec fn no_dearer(self, cost: int, q: Seq<int>) -> bool {
        0x4_0000 * (cost - self.route_cost(q)) <= q.len() * cost
    }

    /// Some way from `start` to `c` costs, with the estimate from there on, no more than
    /// `q`.
    pub open spec fn within(self, start: int, goal: int, q: Seq<int>, c: int) -> bool {
        exists|p: Seq<int>| #[trigger]
            self.is_route(start, c, p) && self.no_dearer(
                self.route_sum(p) + self.estimate(goal, c),
                q,
            )
    }

    /// How many cells a search that may come upon `q` may have to look at.
    pub open spec fn cells_within(self, start: int, goal: int, q: Seq<int>) -> nat {
        vstd::set_lib::set_int_range(0, self.size * self.size).filter(
            |c: int| self.within(start, goal, q, c),
        ).len()
    }
}

/// The cells of a path as whole numbers.
pub open spec fn path_cells(path: Seq<i32>) -> Seq<int> {
    path.map_values(|c: i32| c as int)
}

/// A step costs at least one and less than 28.
proof fn lemma_step_range(f: RoadView, from: int, to: int)
    requires
        f.well_formed(),
        is_cell(f.size, from),
        is_cell(f.size, to),
    ensures
        ROAD_ONE <= f.step_cost(from, to) <= 28 * ROAD_ONE,
{
    reveal(RoadView::step_cost);
    assert(cell_valid(f.cells[to]));
    lemma_field_ranges(f.cells[to]);
    let climb = f.elev_code[to] - f.elev_code[from];
    let height = if climb < 0 {
        -climb
    } else {
        climb
    };
    let top = SINGLE as int;
    law_rounding_stays_close(cell_relief(f.cells[to]) * STEP_RELIEF, top);
    let rough = STEP_BASE + single(cell_relief(f.cells[to]) * STEP_RELIEF);
    law_rounding_stays_close(rough, top);
    law_rounding_stays_close(height * STEP_CLIMB, top);
    let steep = single(rough) + single(height * STEP_CLIMB);
    law_rounding_stays_close(steep, top);
    law_rounding_stays_close(single(steep) + STEP_ALPINE, top);
    let high = if cell_biome_id(f.cells[to]) == 6 {
        single(single(steep) + STEP_ALPINE)
    } else {
        single(steep)
    };
    law_rounding_stays_close(high + STEP_RIVER, top);
    law_rounding_stays_close(high - STEP_BANK, top);
    let damp = if f.river_channel[to] != 0 {
        single(high + STEP_RIVER)
    } else if f.river_adjacent[to] != 0 {
        single(high - STEP_BANK)
    } else {
        high
    };
    let people = single(cell_pop(f.cells[to]) * STEP_PEOPLE);
    law_rounding_stays_close(cell_pop(f.cells[to]) * STEP_PEOPLE, top);
    law_rounding_stays_close(
        damp - if people < STEP_PEOPLE_MOST {
            people
        } else {
            STEP_PEOPLE_MOST as int
        },
        top,
    );
}

fn step_cost(f: &RoadField<'_>, from: usize, to: usize) -> (r: i64)
    requires
        f@.well_formed(),
        is_cell(f.size as int, from as int),
        is_cell(f.size as int, to as int),
    ensures
        r == f@.step_cost(from as int, to as int),
        ROAD_ONE <= r <= 28 * ROAD_ONE,
{
    assert(cell_valid(f.cells@[to as int]));
    proof {
        lemma_field_ranges(f.cells@[to as int]);
        lemma_step_range(f@, from as int, to as int);
        reveal(RoadView::step_cost);
    }
    let word: i32 = f.cells[to];
    let climb: i64 = f.elev_code[to] as i64 - f.elev_code[from] as i64;
    let height: i64 = if climb < 0 {
        -climb
    } else {
        climb
    };
    let ghost top = SINGLE as int;
    proof {
        law_rounding_stays_close(cell_relief(word) * STEP_RELIEF, top);
        law_rounding_stays_close(height * STEP_CLIMB, top);
        law_rounding_stays_close(cell_pop(word) * STEP_PEOPLE, top);
    }
    let mut cost: i64 = round_single(STEP_BASE + round_single(relief(word) as i64 * STEP_RELIEF));
    proof {
        law_rounding_stays_close(STEP_BASE + single(cell_relief(word) * STEP_RELIEF), top);
        law_rounding_stays_close(cost + single(height * STEP_CLIMB), top);
    }
    cost = round_single(cost + round_single(height * STEP_CLIMB));
    if biome(word) == Biome::Alpine {
        proof {
            law_rounding_stays_close(cost + STEP_ALPINE, top);
        }
        cost = round_single(cost + STEP_ALPINE);
    }
    proof {
        law_rounding_stays_close(cost + STEP_RIVER, top);
        law_rounding_stays_close(cost - STEP_BANK, top);
    }
    if f.river_channel[to] != 0 {
        cost = round_single(cost + STEP_RIVER);
    } else if f.river_adjacent[to] != 0 {
        cost = round_single(cost - STEP_BANK);
    }
    let people: i64 = round_single(population(word) as i64 * STEP_PEOPLE);
    cost = round_single(
        cost - if people < STEP_PEOPLE_MOST {
            people
        } else {
            STEP_PEOPLE_MOST
        },
    );
    if cost < ROAD_ONE {
        ROAD_ONE
    } else {
        cost
    }
}

fn estimate(f: &RoadField<'_>, goal: usize, c: usize) -> (r: i64)
    requires
        side_ok(f.size as int),
        is_cell(f.size as int, goal as int),
        is_cell(f.size as int, c as int),
    ensures
        r == f@.estimate(goal as int, c as int),
        0 <= r <= 100_000 * ROAD_ONE,
{
    proof {
        lemma_cell_coords(f.size as int, goal as int);
        lemma_cell_coords(f.size as int, c as int);
    }
    let cx: usize = c % f.size;
    let cz: usize = c / f.size;
    let gx: usize = goal % f.size;
    let gz: usize = goal / f.size;
    let dx: usize = if cx < gx {
        gx - cx
    } else {
        cx - gx
    };
    let dz: usize = if cz < gz {
        gz - cz
    } else {
        cz - gz
    };
    ROAD_ONE * (dx as i64 + dz as i64)
}

/// A step costs at least what the estimate changes by.
proof fn lemma_estimate_step(f: RoadView, goal: int, a: int, b: int)
    requires
        f.well_formed(),
        is_cell(f.size, goal),
        is_cell(f.size, a),
        is_cell(f.size, b),
        adjacent(f.size, a, b),
    ensures
        f.estimate(goal, a) <= f.estimate(goal, b) + ROAD_ONE,
        f.estimate(goal, b) <= f.estimate(goal, a) + ROAD_ONE,
        ROAD_ONE <= f.step_cost(a, b) <= 28 * ROAD_ONE,
{
    lemma_step_range(f, a, b);
    let n = f.size;
    lemma_cell_coords(n, a);
    lemma_cell_coords(n, b);
    let k = choose|k: int| 0 <= k < 4 && #[trigger] step(n, a, k) == Some(b);
    lemma_step_coords(n, cell_x(n, a), cell_z(n, a), k);
    let nx = cell_x(n, a) + (if k == 0 { 1int } else if k == 2 { -1 } else { 0 });
    let nz = cell_z(n, a) + (if k == 1 { 1int } else if k == 3 { -1 } else { 0 });
    lemma_coords_of_number(n, nx, nz);
}

/// From the `i`-th cell of a way on, the rest costs at least the estimate.
proof fn lemma_rest_cost(f: RoadView, start: int, goal: int, p: Seq<int>, i: int, upto: int)
    requires
        f.well_formed(),
        f.is_route(start, goal, p),
        0 <= i < upto <= p.len(),
        is_cell(f.size, goal),
    ensures
        f.route_cost(p.take(i + 1)) + f.estimate(goal, p[i]) <= f.route_cost(p.take(upto))
            + f.estimate(goal, p[upto - 1]),
    decreases upto - i,
{
    if upto > i + 1 {
        lemma_rest_cost(f, start, goal, p, i, upto - 1);
        let q = p.take(upto);
        assert(q.drop_last() =~= p.take(upto - 1));
        assert(adjacent(f.size, p[upto - 1 - 1], p[upto - 1]));
        assert(is_cell(f.size, p[upto - 1]) && is_cell(f.size, p[upto - 2]));
        lemma_estimate_step(f, goal, p[upto - 2], p[upto - 1]);
    }
}

/// A search in progress: the best cost known to each cell and the cell it was
/// reached from, the settled cells, and the open list.
struct Search {
    gscore: Vec<u64>,
    came: Vec<i32>,
    closed: Vec<bool>,
    open: OpenHeap,
    settled: Ghost<Seq<i32>>,
    pushed: Ghost<int>,
    level: Ghost<int>,
}

/// The cost of a cell that no way was found to.
pub const UNREACHED: u64 = 0xffff_ffff_ffff_ffff;

/// The entry that comes out of the open list next.
pub open spec fn next_open(open: Multiset<(u64, i32)>) -> (u64, i32) {
    choose|e: (u64, i32)| #[trigger]
        open.contains(e) && forall|o: (u64, i32)|
            open.contains(o) ==> !#[trigger] comes_first(o, e)
}

proof fn lemma_next_open(open: Multiset<(u64, i32)>, entry: (u64, i32))
    requires
        open.contains(entry),
        forall|o: (u64, i32)| open.contains(o) ==> !#[trigger] comes_first(o, entry),
    ensures
        next_open(open) == entry,
{
    let e = next_open(open);
    assert(open.contains(e) && forall|o: (u64, i32)|
        open.contains(o) ==> !#[trigger] comes_first(o, e));
    assert(!comes_first(entry, e) && !comes_first(e, entry));
}

/// The cells from which `c` was reached, back to the first, and `c` last; no more than
/// `left` steps back.
pub open spec fn way_back(came: Seq<i32>, c: int, left: nat) -> Seq<i32>
    decreases left,
{
    if left == 0 || came[c] < 0 {
        seq![c as i32]
    } else {
        way_back(came, came[c] as int, (left - 1) as nat).push(c as i32)
    }
}

/// A search under way: the lowest cost found to each cell and from where, the cells that
/// are settled, and the open list.
pub ghost struct SearchState {
    pub gscore: Seq<u64>,
    pub came: Seq<i32>,
    pub closed: Seq<bool>,
    pub open: Multiset<(u64, i32)>,
}

impl SearchState {
    /// A search that has found nothing yet but where it starts.
    pub open spec fn begun(f: RoadView, start: int, goal: int) -> SearchState {
        let n2 = (f.size * f.size) as nat;
        SearchState {
            gscore: Seq::new(n2, |c: int| UNREACHED).update(start, 0),
            came: Seq::new(n2, |c: int| -1i32),
            closed: Seq::new(n2, |c: int| false),
            open: Multiset::empty().insert(
                (single(f.estimate(goal, start)) as u64, start as i32),
            ),
        }
    }

    /// After settled cell `cur` offered the neighbour on side `k` a way through it: an
    /// unsettled dry neighbour takes it where it is cheaper.
    pub open spec fn offered(self, f: RoadView, goal: int, cur: int, k: int) -> SearchState {
        match step(f.size, cur, k) {
            None => self,
            Some(to) => {
                let cost = single(self.gscore[cur] + f.step_cost(cur, to));
                if !self.closed[to] && !wet(f.cells, to) && cost < self.gscore[to] {
                    SearchState {
                        gscore: self.gscore.update(to, cost as u64),
                        came: self.came.update(to, cur as i32),
                        closed: self.closed,
                        open: self.open.insert(
                            (single(cost + f.estimate(goal, to)) as u64, to as i32),
                        ),
                    }
                } else {
                    self
                }
            },
        }
    }

    /// After the first `k` sides of `cur` had their offers.
    pub open spec fn offered_upto(self, f: RoadView, goal: int, cur: int, k: nat) -> SearchState
        decreases k,
    {
        if k == 0 {
            self
        } else {
            self.offered_upto(f, goal, cur, (k - 1) as nat).offered(f, goal, cur, k - 1)
        }
    }

    /// What is found by taking up at most `left` more entries: the way to the goal once it
    /// comes out, nothing where the list or the budget runs out. An entry of a settled cell
    /// is passed over; any other settles its cell.
    pub open spec fn run_on(self, f: RoadView, goal: int, left: nat) -> Seq<i32>
        decreases left,
    {
        if left == 0 || self.open.len() == 0 {
            Seq::empty()
        } else {
            let e = next_open(self.open);
            let s = SearchState { open: self.open.remove(e), ..self };
            if e.1 == goal {
                way_back(s.came, goal, s.gscore[goal] as nat)
            } else if s.closed[e.1 as int] {
                s.run_on(f, goal, (left - 1) as nat)
            } else {
                (SearchState { closed: s.closed.update(e.1 as int, true), ..s }).offered_upto(
                    f,
                    goal,
                    e.1 as int,
                    4,
                ).run_on(f, goal, (left - 1) as nat)
            }
        }
    }
}

/// What the search from `start` to `goal` finds.
pub open spec fn searched(f: RoadView, start: int, goal: int) -> Seq<i32> {
    if !is_cell(f.size, start) || !is_cell(f.size, goal) {
        Seq::empty()
    } else if start == goal {
        seq![start as i32]
    } else {
        SearchState::begun(f, start, goal).run_on(f, goal, SEARCH_BUDGET as nat)
    }
}

impl Search {
    spec fn state(&self) -> SearchState {
        SearchState {
            gscore: self.gscore@,
            came: self.came@,
            closed: self.closed@,
            open: self.open@,
        }
    }

    spec fn reached(&self, c: int) -> bool {
        self.gscore@[c] != UNREACHED
    }

    spec fn shaped(&self, f: RoadView, start: int, goal: int) -> bool {
        let n2 = f.size * f.size;
        &&& f.well_formed()
        &&& is_cell(f.size, start)
        &&& is_cell(f.size, goal)
        &&& self.gscore@.len() == n2
        &&& self.came@.len() == n2
        &&& self.closed@.len() == n2
        &&& self.open.well_formed()
        &&& cell_list(f.size, self.settled@)
        &&& self.gscore@[start] == 0
        &&& self.came@[start] == -1
        &&& !self.closed@[goal]
        &&& self.pushed@ <= 1 + 4 * self.settled@.len()
        &&& self.settled@.len() <= SEARCH_BUDGET
    }

    /// The cost of a cell and the estimate from there on.
    spec fn through(&self, f: RoadView, goal: int, c: int) -> int {
        self.gscore@[c] + f.estimate(goal, c)
    }

    /// What never falls along the ways found: with a grain of the cost, what rounding took
    /// from it is made up for.
    spec fn potential(&self, f: RoadView, goal: int, c: int) -> int {
        self.through(f, goal, c) + grain_of(self.gscore@[c] as int, SINGLE as int)
    }

    /// What is known of a cell.
    spec fn cell_state(&self, f: RoadView, start: int, goal: int, c: int) -> bool {
        &&& self.closed@[c] <==> self.settled@.contains(c as i32)
        &&& self.closed@[c] ==> self.reached(c) && self.through(f, goal, c) <= self.level@
        &&& self.reached(c) ==> self.gscore@[c] <= 29 * ROAD_ONE * self.settled@.len()
            && single(self.gscore@[c] as int) == self.gscore@[c]
        &&& self.reached(c) && !self.closed@[c] ==> self.open@.contains(
            (single(self.through(f, goal, c)) as u64, c as i32),
        ) && 0x40_0000 * (self.level@ - self.potential(f, goal, c)) <= self.potential(f, goal, c)
        &&& !self.reached(c) ==> self.came@[c] == -1
        &&& self.reached(c) && c != start ==> {
            let from = self.came@[c] as int;
            &&& is_cell(f.size, from)
            &&& adjacent(f.size, from, c)
            &&& !wet(f.cells, c)
            &&& self.closed@[from]
            &&& self.gscore@[c] == single(self.gscore@[from] + f.step_cost(from, c))
        }
    }

    /// Every open entry is for a reached cell and, but for rounding, no lower than its cost.
    spec fn entry_state(&self, f: RoadView, goal: int, e: (u64, i32)) -> bool {
        self.open@.contains(e) ==> {
            &&& is_cell(f.size, e.1 as int)
            &&& self.reached(e.1 as int)
            &&& SINGLE * (self.through(f, goal, e.1 as int) - e.0) <= self.through(
                f,
                goal,
                e.1 as int,
            )
        }
    }

    /// A settled cell offers its neighbours their way through it: none costs more, but for
    /// one part in 2^19 of the dearest settled.
    spec fn relaxed(&self, f: RoadView, c: int, k: int) -> bool {
        self.closed@[c] ==> match step(f.size, c, k) {
            Some(d) => !wet(f.cells, d) ==> self.reached(d) && 0x8_0000 * (self.gscore@[d]
                - self.gscore@[c] - f.step_cost(c, d)) <= self.level@,
            None => true,
        }
    }

    spec fn sound(&self, f: RoadView, start: int, goal: int) -> bool {
        &&& self.shaped(f, start, goal)
        &&& forall|c: int| is_cell(f.size, c) ==> #[trigger] self.cell_state(f, start, goal, c)
        &&& forall|e: (u64, i32)| #[trigger] self.entry_state(f, goal, e)
    }

    spec fn relaxed_all(&self, f: RoadView, cur: int, turn: int) -> bool {
        forall|c: int, k: int|
            is_cell(f.size, c) && 0 <= k < 4 && (c != cur || k < turn) ==> #[trigger] self.relaxed(
                f,
                c,
                k,
            )
    }
}

/// Along a way whose first `i` cells are settled, costs are bounded by the way's.
proof fn lemma_way_bound(s: &Search, f: RoadView, start: int, goal: int, p: Seq<int>, i: int)
    requires
        s.sound(f, start, goal),
        s.relaxed_all(f, -1, 0),
        f.is_route(start, goal, p),
        0 <= i < p.len(),
        forall|j: int| 0 <= j < i ==> s.closed@[#[trigger] p[j]],
    ensures
        s.reached(p[i]),
        0x8_0000 * (s.gscore@[p[i]] - f.route_cost(p.take(i + 1))) <= i * s.level@,
    decreases i,
{
    if i == 0 {
        assert(p[0] == start);
        assert(0 * s.level@ == 0);
    } else {
        assert(i * s.level@ == (i - 1) * s.level@ + s.level@) by (nonlinear_arith);
        lemma_way_bound(s, f, start, goal, p, i - 1);
        assert(s.closed@[p[i - 1]]);
        assert(is_cell(f.size, p[i - 1]) && is_cell(f.size, p[i]));
        assert(adjacent(f.size, p[i - 1], p[i]));
        let k = choose|k: int| 0 <= k < 4 && #[trigger] step(f.size, p[i - 1], k) == Some(p[i]);
        assert(s.relaxed(f, p[i - 1], k));
        assert(p.take(i + 1).drop_last() =~= p.take(i));
    }
}

/// The first cell of a way that is not settled.
proof fn lemma_first_open(s: &Search, p: Seq<int>, upto: int) -> (i: int)
    requires
        0 < upto <= p.len(),
        !s.closed@[p[upto - 1]],
    ensures
        0 <= i < upto,
        !s.closed@[p[i]],
        forall|j: int| 0 <= j < i ==> s.closed@[#[trigger] p[j]],
    decreases upto,
{
    if upto > 1 && !s.closed@[p[upto - 2]] {
        lemma_first_open(s, p, upto - 1)
    } else if upto == 1 {
        0
    } else if exists|j: int| 0 <= j < upto - 1 && !s.closed@[#[trigger] p[j]] {
        let j = choose|j: int| 0 <= j < upto - 1 && !s.closed@[#[trigger] p[j]];
        lemma_first_open(s, p, j + 1)
    } else {
        upto - 1
    }
}

/// The cost of a cell other than the start is at least one.
proof fn lemma_cost_of_reached(s: &Search, f: RoadView, start: int, goal: int, c: int)
    requires
        s.sound(f, start, goal),
        is_cell(f.size, c),
        s.reached(c),
    ensures
        c != start ==> s.gscore@[c] >= ROAD_ONE,
        0 <= s.gscore@[c] <= 600_000 * ROAD_ONE,
        0 <= s.through(f, goal, c) <= 700_000 * ROAD_ONE,
        start != goal ==> s.through(f, goal, c) >= ROAD_ONE,
{
    assert(s.cell_state(f, start, goal, c));
    lemma_estimate_range(f, goal, c);
    lemma2_to64();
    if c != start {
        let from = s.came@[c] as int;
        assert(s.cell_state(f, start, goal, from));
        lemma_step_range(f, from, c);
        law_rounding_keeps_side(
            s.gscore@[from] + f.step_cost(from, c),
            1,
            32,
            SINGLE as int,
        );
    }
}

/// An open cell is, but for rounding, no cheaper than any that is settled.
proof fn lemma_open_level(s: &Search, f: RoadView, start: int, goal: int, c: int)
    requires
        s.sound(f, start, goal),
        start != goal,
        is_cell(f.size, c),
        s.reached(c),
    ensures
        s.through(f, goal, c) <= s.potential(f, goal, c),
        0x40_0000 * (s.potential(f, goal, c) - s.through(f, goal, c)) <= s.through(f, goal, c),
        !s.closed@[c] ==> 0x10_0000 * (s.level@ - s.through(f, goal, c)) <= s.through(
            f,
            goal,
            c,
        ),
        !s.closed@[c] ==> s.open@.contains((single(s.through(f, goal, c)) as u64, c as i32)),
        0 <= single(s.through(f, goal, c)) <= u64::MAX,
        SINGLE * (single(s.through(f, goal, c)) - s.through(f, goal, c)) <= s.through(f, goal, c),
        SINGLE * (s.through(f, goal, c) - single(s.through(f, goal, c))) <= s.through(f, goal, c),
{
    lemma_cost_of_reached(s, f, start, goal, c);
    assert(s.cell_state(f, start, goal, c));
    let j = lemma_grain_of(s.gscore@[c] as int, SINGLE as int);
    lemma2_to64();
    law_rounding_stays_close(s.through(f, goal, c), SINGLE as int);
    lemma_estimate_range(f, goal, c);
}

/// What comes out of the open list first is, but for rounding, no dearer than any open cell.
proof fn lemma_first_out(
    s: &Search,
    f: RoadView,
    start: int,
    goal: int,
    e: (u64, i32),
    c: int,
)
    requires
        s.sound(f, start, goal),
        start != goal,
        s.open@.contains(e),
        forall|other: (u64, i32)| s.open@.contains(other) ==> !#[trigger] comes_first(other, e),
        is_cell(f.size, c),
        s.reached(c),
        !s.closed@[c],
    ensures
        0x40_0000 * (s.through(f, goal, e.1 as int) - s.through(f, goal, c)) <= s.through(
            f,
            goal,
            c,
        ),
{
    lemma_open_level(s, f, start, goal, c);
    assert(s.entry_state(f, goal, e));
    lemma_cost_of_reached(s, f, start, goal, e.1 as int);
    lemma_cost_of_reached(s, f, start, goal, c);
    let other = (single(s.through(f, goal, c)) as u64, c as i32);
    assert(!comes_first(other, e));
}

proof fn lemma_found_bound(found: int, x: int, level: int, cost: int, i: int, len: int)
    requires
        0 <= cost,
        0 <= level,
        0 <= found,
        0 <= x,
        0 <= i < len,
        0x8_0000 * (x - cost) <= i * level,
        0x40_0000 * (found - x) <= x,
        0x10_0000 * (level - found) <= found,
    ensures
        0x4_0000 * (found - cost) <= len * found,
{
    let a = i * found;
    let t = i * level;
    assert(0x10_0000 * t <= 0x10_0001 * a) by (nonlinear_arith)
        requires
            0x10_0000 * level <= 0x10_0001 * found,
            i >= 0,
            t == i * level,
            a == i * found,
    ;
    assert(a + found <= len * found && a >= 0) by (nonlinear_arith)
        requires
            i + 1 <= len,
            i >= 0,
            found >= 0,
            a == i * found,
    ;
}

proof fn lemma_settled_bound(e: int, x: int, level: int, cost: int, i: int, len: int)
    requires
        0 <= cost,
        0 <= e <= level,
        0 <= x,
        0 <= i < len,
        0x8_0000 * (x - cost) <= i * level,
        0x10_0000 * (level - x) <= x,
    ensures
        0x4_0000 * (e - cost) <= len * e,
{
    let t = i * level;
    let all = len * level;
    assert(t + level <= all && t >= 0) by (nonlinear_arith)
        requires
            i + 1 <= len,
            i >= 0,
            level >= 0,
            t == i * level,
            all == len * level,
    ;
    if len >= 0x4_0000 {
        assert(0x4_0000 * e <= len * e) by (nonlinear_arith)
            requires
                len >= 0x4_0000,
                e >= 0,
        ;
    } else {
        assert(t <= 0x4_0000 * level) by (nonlinear_arith)
            requires
                i <= 0x4_0000,
                level >= 0,
                t == i * level,
        ;
        assert(0x4_0000 * (level - cost) <= all);
        assert(0x4_0000 * e - len * e <= 0x4_0000 * level - all) by (nonlinear_arith)
            requires
                len <= 0x4_0000,
                e <= level,
                all == len * level,
        ;
    }
}

/// Up to its first open cell, a way costs no less, but for rounding, than is known of that
/// cell and the estimate from there on.
proof fn lemma_way_through(s: &Search, f: RoadView, start: int, goal: int, q: Seq<int>) -> (i: int)
    requires
        s.sound(f, start, goal),
        s.relaxed_all(f, -1, 0),
        start != goal,
        f.is_route(start, goal, q),
    ensures
        0 <= i < q.len(),
        is_cell(f.size, q[i]),
        s.reached(q[i]),
        !s.closed@[q[i]],
        0x8_0000 * (s.through(f, goal, q[i]) - f.route_cost(q)) <= i * s.level@,
        0 <= f.route_cost(q),
{
    let n = q.len() as int;
    assert(q[n - 1] == goal);
    let i = lemma_first_open(s, q, n);
    lemma_way_bound(s, f, start, goal, q, i);
    assert(is_cell(f.size, q[i]));
    lemma_rest_cost(f, start, goal, q, i, n);
    assert(q.take(n) =~= q);
    lemma_estimate_range(f, goal, goal);
    lemma_cost_nonneg(f, start, goal, q);
    i
}

/// When the goal comes out of the open list, its cost is the least of all ways, but for
/// rounding.
proof fn lemma_goal_cheapest(
    s: &Search,
    f: RoadView,
    start: int,
    goal: int,
    e: (u64, i32),
    q: Seq<int>,
)
    requires
        s.sound(f, start, goal),
        s.relaxed_all(f, -1, 0),
        start != goal,
        s.open@.contains(e),
        e.1 == goal,
        s.level@ >= 0,
        forall|other: (u64, i32)| s.open@.contains(other) ==> !#[trigger] comes_first(other, e),
        f.is_route(start, goal, q),
    ensures
        f.no_dearer(s.gscore@[goal] as int, q),
{
    let i = lemma_way_through(s, f, start, goal, q);
    lemma_first_out(s, f, start, goal, e, q[i]);
    assert(s.entry_state(f, goal, e));
    lemma_open_level(s, f, start, goal, goal);
    lemma_cost_of_reached(s, f, start, goal, q[i]);
    lemma_estimate_range(f, goal, goal);
    lemma_found_bound(
        s.gscore@[goal] as int,
        s.through(f, goal, q[i]),
        s.level@,
        f.route_cost(q),
        i,
        q.len() as int,
    );
}

proof fn lemma_settled_len(s: &Search, f: RoadView, start: int, goal: int)
    requires
        s.sound(f, start, goal),
    ensures
        s.settled@.len() <= f.size * f.size <= 2147395600,
{
    lemma_side(f.size);
    assert forall|i: int| 0 <= i < s.settled@.len() implies 0 <= #[trigger] s.settled@[i] < f.size
        * f.size by {
        assert(is_cell(f.size, s.settled@[i] as int));
    }
    lemma_distinct_len(s.settled@, f.size * f.size);
}

proof fn lemma_estimate_range(f: RoadView, goal: int, c: int)
    requires
        f.well_formed(),
        is_cell(f.size, goal),
        is_cell(f.size, c),
    ensures
        0 <= f.estimate(goal, c) <= 100_000 * ROAD_ONE,
        c != goal ==> f.estimate(goal, c) >= ROAD_ONE,
        c == goal ==> f.estimate(goal, c) == 0,
{
    lemma_cell_coords(f.size, goal);
    lemma_cell_coords(f.size, c);
}

/// Once nothing is open, no way leads to the goal.
proof fn lemma_no_way(s: &Search, f: RoadView, start: int, goal: int, p: Seq<int>)
    requires
        s.sound(f, start, goal),
        s.relaxed_all(f, -1, 0),
        start != goal,
        s.open@.len() == 0,
    ensures
        !f.is_route(start, goal, p),
{
    if f.is_route(start, goal, p) {
        let i = lemma_way_through(s, f, start, goal, p);
        assert(s.cell_state(f, start, goal, p[i]));
        let other = (single(s.through(f, goal, p[i])) as u64, p[i] as i32);
        assert(s.open@.contains(other));
        assert(0 < s.open@.count(other) <= s.open@.len());
    }
}

/// What a settled cell offers its neighbour.
proof fn lemma_offer(s: &Search, f: RoadView, start: int, goal: int, cur: int, d: int)
    requires
        s.sound(f, start, goal),
        start != goal,
        is_cell(f.size, cur),
        is_cell(f.size, d),
        adjacent(f.size, cur, d),
        s.closed@[cur],
        s.level@ >= s.through(f, goal, cur),
        0x40_0000 * (s.level@ - s.potential(f, goal, cur)) <= s.potential(f, goal, cur),
        s.gscore@[cur] + 29 * ROAD_ONE <= 29 * ROAD_ONE * s.settled@.len(),
    ensures
        ({
            let cost = single(s.gscore@[cur] + f.step_cost(cur, d));
            let ahead = cost + f.estimate(goal, d);
            let high = ahead + grain_of(cost, SINGLE as int);
            &&& s.gscore@[cur] < cost <= 29 * ROAD_ONE * s.settled@.len()
            &&& cost <= 600_000 * ROAD_ONE
            &&& single(cost) == cost
            &&& 0x8_0000 * (cost - s.gscore@[cur] - f.step_cost(cur, d)) <= s.level@
            &&& 0x40_0000 * (s.level@ - high) <= high
            &&& 0 <= single(ahead) <= u64::MAX
            &&& SINGLE * (ahead - single(ahead)) <= ahead
        }),
        s.closed@[d] ==> 0x8_0000 * (s.gscore@[d] - s.gscore@[cur] - f.step_cost(cur, d))
            <= s.level@,
{
    let top = SINGLE as int;
    let g = s.gscore@[cur] as int;
    let sum = g + f.step_cost(cur, d);
    assert(s.cell_state(f, start, goal, cur));
    assert(s.cell_state(f, start, goal, d));
    lemma_cost_of_reached(s, f, start, goal, cur);
    lemma_open_level(s, f, start, goal, cur);
    lemma_estimate_step(f, goal, cur, d);
    lemma_estimate_range(f, goal, d);
    lemma_estimate_range(f, goal, cur);
    law_rounding_stays_close(sum, top);
    law_rounding_settles(sum, top);
    lemma2_to64();
    law_steps_add_up(g, f.step_cost(cur, d), 32, top);
    law_rounding_stays_close(single(sum) + f.estimate(goal, d), top);
    let j = lemma_grain_of(single(sum), top);
    let cost = single(sum);
    assert(cost <= 29 * ROAD_ONE * s.settled@.len());
    let n = s.settled@.len() as int;
    assert(29 * ROAD_ONE * n <= 600_000 * ROAD_ONE) by (nonlinear_arith)
        requires
            0 <= n <= 20_000,
    ;
}

/// Offers the neighbour of the settled cell `cur` on side `k` the way through it.
fn offer_way(
    f: &RoadField<'_>,
    goal: usize,
    cur: usize,
    k: usize,
    s: &mut Search,
    Ghost(start): Ghost<int>,
)
    requires
        is_cell(f.size as int, cur as int),
        k < 4,
        old(s).sound(f@, start, goal as int),
        start != goal,
        old(s).closed@[cur as int],
        old(s).level@ >= old(s).through(f@, goal as int, cur as int),
        0x40_0000 * (old(s).level@ - old(s).potential(f@, goal as int, cur as int))
            <= old(s).potential(f@, goal as int, cur as int),
        old(s).gscore@[cur as int] + 29 * ROAD_ONE <= 29 * ROAD_ONE * old(s).settled@.len(),
        old(s).relaxed_all(f@, cur as int, k as int),
        old(s).pushed@ + (4 - k) <= 1 + 4 * old(s).settled@.len(),
    ensures
        final(s).sound(f@, start, goal as int),
        final(s).state() == old(s).state().offered(f@, goal as int, cur as int, k as int),
        final(s).closed@ == old(s).closed@,
        final(s).settled@ == old(s).settled@,
        final(s).level@ == old(s).level@,
        final(s).gscore@[cur as int] == old(s).gscore@[cur as int],
        final(s).relaxed_all(f@, cur as int, k + 1),
        final(s).pushed@ + (4 - (k + 1)) <= 1 + 4 * final(s).settled@.len(),
        final(s).pushed@ - final(s).open@.len() == old(s).pushed@ - old(s).open@.len(),
{
    let ghost v = f@;
    let ghost n = v.size;
    let ghost g = goal as int;
    let ghost s0 = *s;
    let ghost c0 = cur as int;
    proof {
        lemma_side(n);
        lemma_step(n, c0, k as int);
        lemma_settled_len(s, v, start, g);
        assert(s.cell_state(v, start, g, c0));
    }
    proof {
        lemma_cost_of_reached(s, v, start, g, c0);
        lemma_open_level(s, v, start, g, c0);
    }
    let around: Option<usize> = neighbor(f.size, cur, k);
    let ghost mut target: int = -1;
    if let Some(nb) = around {
        let ghost d = nb as int;
        proof {
            assert(s.cell_state(v, start, g, d));
            assert(cell_valid(f.cells@[d]));
            assert(adjacent(n, c0, d)) by {
                assert(step(n, c0, k as int) == Some(d));
            }
            lemma_estimate_step(v, g, c0, d);
            lemma_estimate_range(v, g, d);
            lemma_offer(&s0, v, start, g, c0, d);
        }
        let there: Biome = biome(f.cells[nb]);
        if !s.closed[nb] && there != Biome::Ocean && there != Biome::Lake {
            let sum: i64 = round_single(s.gscore[cur] as i64 + step_cost(f, cur, nb));
            let tentative: u64 = sum as u64;
            if tentative < s.gscore[nb] {
                let ahead: i64 = round_single(sum + estimate(f, goal, nb));
                let entry: (u64, i32) = (ahead as u64, nb as i32);
                proof {
                    target = d;
                }
                s.came.set(nb, cur as i32);
                s.gscore.set(nb, tentative);
                s.open.push(entry);
                proof {
                    s.pushed@ = s.pushed@ + 1;
                    assert(d != start) by {
                        assert(s0.gscore@[start] == 0);
                    }
                    assert forall|c: int| is_cell(n, c) implies #[trigger] s.cell_state(
                        v,
                        start,
                        g,
                        c,
                    ) by {
                        assert(s0.cell_state(v, start, g, c));
                        if c != d {
                            if s0.reached(c) && !s0.closed@[c] {
                                let e = (single(s0.through(v, g, c)) as u64, c as i32);
                                assert(s0.open@.contains(e));
                                assert(s.open@.count(e) > 0);
                                assert(s.through(v, g, c) == s0.through(v, g, c));
                            }
                            if s0.reached(c) && c != start {
                                let from = s0.came@[c] as int;
                                assert(s0.closed@[from]);
                                assert(from != d);
                            }
                        } else {
                            assert(s.open@.count(entry) > 0);
                        }
                    }
                    assert forall|e: (u64, i32)| #[trigger] s.entry_state(v, g, e) by {
                        if s.open@.contains(e) && e != entry {
                            assert(s0.open@.contains(e));
                            assert(s0.entry_state(v, g, e));
                        }
                    }
                }
            }
        }
    }
    proof {
        if around is Some {
            lemma_offer(&s0, v, start, g, c0, around->0 as int);
        }
        assert forall|c: int, k2: int|
            is_cell(n, c) && 0 <= k2 < 4 && (c != c0 || k2 < k + 1) implies #[trigger] s.relaxed(
            v,
            c,
            k2,
        ) by {
            lemma_step(n, c, k2);
            if s.closed@[c] && step(n, c, k2) is Some {
                let d = step(n, c, k2)->0;
                assert(s0.cell_state(v, start, g, c));
                assert(s0.cell_state(v, start, g, d));
                if c == c0 && k2 == k {
                    lemma_estimate_step(v, g, c0, d);
                } else {
                    assert(s0.relaxed(v, c, k2));
                }
            }
        }
    }
}

/// Where a reached cell was reached from, and at what cost.
spec fn came_over(f: RoadView, gscore: Seq<u64>, came: Seq<i32>, start: int, c: int) -> bool {
    &&& gscore[c] == UNREACHED ==> came[c] == -1
    &&& gscore[c] != UNREACHED && c != start ==> {
        let from = came[c] as int;
        &&& is_cell(f.size, from)
        &&& adjacent(f.size, from, c)
        &&& !wet(f.cells, c)
        &&& gscore[from] != UNREACHED
        &&& gscore[c] == single(gscore[from] + f.step_cost(from, c))
        &&& gscore[from] < gscore[c]
    }
}

/// Follows the cells that `goal` was reached from back to the start.
fn reconstruct(
    f: &RoadField<'_>,
    gscore: &Vec<u64>,
    came: &Vec<i32>,
    goal: usize,
    Ghost(start): Ghost<int>,
) -> (path: Vec<i32>)
    requires
        f@.well_formed(),
        is_cell(f.size as int, start),
        is_cell(f.size as int, goal as int),
        gscore@.len() == f.size * f.size,
        came@.len() == f.size * f.size,
        gscore@[start] == 0,
        came@[start] == -1,
        gscore@[goal as int] != UNREACHED,
        forall|c: int|
            is_cell(f.size as int, c) ==> #[trigger] came_over(f@, gscore@, came@, start, c),
    ensures
        f@.is_route(start, goal as int, path_cells(path@)),
        f@.route_sum(path_cells(path@)) == gscore@[goal as int],
        path@.no_duplicates(),
        path@ == way_back(came@, goal as int, gscore@[goal as int] as nat),
{
    let ghost v = f@;
    let ghost n = v.size;
    let ghost g = goal as int;
    proof {
        lemma_side(n);
    }
    let mut back: Vec<i32> = Vec::new();
    back.push(goal as i32);
    let mut current: i32 = goal as i32;
    assert(back@.drop_last().reverse() =~= Seq::<i32>::empty());
    assert(way_back(came@, g, gscore@[g] as nat) + Seq::<i32>::empty() =~= way_back(
        came@,
        g,
        gscore@[g] as nat,
    ));
    let ghost mut fwd: Seq<int> = seq![g];
    while came[current as usize] >= 0
        invariant
            v == f@,
            n == v.size,
            g == goal,
            v.well_formed(),
            is_cell(n, start),
            is_cell(n, g),
            gscore@.len() == n * n,
            came@.len() == n * n,
            gscore@[start] == 0,
            came@[start] == -1,
            forall|c: int| is_cell(n, c) ==> #[trigger] came_over(v, gscore@, came@, start, c),
            is_cell(n, current as int),
            gscore@[current as int] != UNREACHED,
            back@.len() > 0,
            back@.last() == current,
            fwd == path_cells(back@.reverse()),
            v.is_route(current as int, g, fwd),
            forall|i: int|
                0 < i < fwd.len() ==> gscore@[#[trigger] fwd[i]] == single(
                    gscore@[fwd[i - 1]] + v.step_cost(fwd[i - 1], fwd[i]),
                ),
            forall|i: int|
                0 <= i < back@.len() ==> is_cell(n, #[trigger] back@[i] as int)
                    && gscore@[current as int] <= gscore@[back@[i] as int],
            forall|i: int|
                0 <= i < back@.len() - 1 ==> gscore@[current as int]
                    < gscore@[#[trigger] back@[i] as int],
            back@.no_duplicates(),
            gscore@[current as int] + back@.len() - 1 <= gscore@[g],
            way_back(came@, g, gscore@[g] as nat) == way_back(
                came@,
                current as int,
                (gscore@[g] + 1 - back@.len()) as nat,
            ) + back@.drop_last().reverse(),
        decreases gscore@[current as int],
    {
        let ghost cur0 = current as int;
        let ghost back0 = back@;
        proof {
            assert(came_over(v, gscore@, came@, start, cur0));
            assert(cur0 != start);
        }
        let ghost from = came@[cur0] as int;
        current = came[current as usize];
        back.push(current);
        proof {
            let left = (gscore@[g] + 1 - back0.len()) as nat;
            assert(back@.drop_last() =~= back0);
            assert(seq![cur0 as i32] + back0.drop_last().reverse() =~= back0.reverse());
            assert(way_back(came@, cur0, left) == way_back(
                came@,
                from,
                (left - 1) as nat,
            ).push(cur0 as i32));
            assert(way_back(came@, cur0, left) + back0.drop_last().reverse() =~= way_back(
                came@,
                from,
                (left - 1) as nat,
            ) + back0.reverse());
            let longer = seq![from] + fwd;
            assert forall|i: int| 0 < i < longer.len() implies adjacent(
                n,
                longer[i - 1],
                #[trigger] longer[i],
            ) && !wet(v.cells, longer[i]) by {
                if i > 1 {
                    assert(longer[i] == fwd[i - 1] && longer[i - 1] == fwd[i - 1 - 1]);
                } else {
                    assert(longer[1] == fwd[0]);
                }
            }
            assert forall|i: int| 0 <= i < longer.len() implies is_cell(n, #[trigger] longer[i]) by {
                if i > 0 {
                    assert(longer[i] == fwd[i - 1]);
                }
            }
            assert(longer.last() == fwd.last());
            assert forall|i: int| 0 < i < longer.len() implies gscore@[#[trigger] longer[i]]
                == single(gscore@[longer[i - 1]] + v.step_cost(longer[i - 1], longer[i])) by {
                if i > 1 {
                    assert(longer[i] == fwd[i - 1] && longer[i - 1] == fwd[i - 1 - 1]);
                } else {
                    assert(longer[1] == fwd[0]);
                }
            }
            fwd = longer;
            assert(fwd =~= path_cells(back@.reverse()));
            assert forall|i: int| 0 <= i < back@.len() implies is_cell(n, #[trigger] back@[i] as int)
                && gscore@[current as int] <= gscore@[back@[i] as int] by {
                if i < back0.len() {
                    assert(back@[i] == back0[i]);
                }
            }
            assert forall|i: int, j: int|
                0 <= i < back@.len() && 0 <= j < back@.len() && i != j implies back@[i]
                != back@[j] by {
                if i == back0.len() {
                    assert(gscore@[cur0] <= gscore@[back0[j] as int]);
                } else if j == back0.len() {
                    assert(gscore@[cur0] <= gscore@[back0[i] as int]);
                } else {
                    assert(back@[i] == back0[i] && back@[j] == back0[j]);
                }
            }
        }
    }
    proof {
        assert(came_over(v, gscore@, came@, start, current as int));
        assert(current == start);
        lemma_sum_along(v, gscore@, fwd, fwd.len() as int);
        assert(fwd.take(fwd.len() as int) =~= fwd);
    }
    let mut path: Vec<i32> = Vec::new();
    let mut i: usize = back.len();
    while i > 0
        invariant
            i <= back@.len(),
            path@ == back@.reverse().take(back@.len() - i),
        decreases i,
    {
        i -= 1;
        path.push(back[i]);
        assert(path@ =~= back@.reverse().take(back@.len() - i));
    }
    proof {
        assert(path@ =~= back@.reverse());
        assert(seq![current] + back@.drop_last().reverse() =~= back@.reverse());
        assert forall|a: int, b: int|
            0 <= a < path@.len() && 0 <= b < path@.len() && a != b implies path@[a] != path@[b] by {
            assert(path@[a] == back@[back@.len() - 1 - a]);
            assert(path@[b] == back@[back@.len() - 1 - b]);
        }
    }
    path
}

/// Costs that are each the one before and a step add up to the way's.
proof fn lemma_sum_along(f: RoadView, gscore: Seq<u64>, p: Seq<int>, n: int)
    requires
        0 < n <= p.len(),
        gscore[p[0]] == 0,
        forall|i: int|
            0 < i < p.len() ==> gscore[#[trigger] p[i]] == single(
                gscore[p[i - 1]] + f.step_cost(p[i - 1], p[i]),
            ),
    ensures
        f.route_sum(p.take(n)) == gscore[p[n - 1]],
    decreases n,
{
    if n > 1 {
        lemma_sum_along(f, gscore, p, n - 1);
        assert(p.take(n).drop_last() =~= p.take(n - 1));
        assert(gscore[p[n - 1]] == single(gscore[p[n - 1 - 1]] + f.step_cost(p[n - 2], p[n - 1])));
    }
}

/// How many entries a search takes up before it gives up.
pub const SEARCH_BUDGET: i32 = 20000;

/// What a search finds, and what holds of it: nothing off the grid, the cell itself where
/// it is its own goal, else a way no dearer, but for rounding, than any other. Where nothing
/// is found, any way there may be is so dear that the cells within its cost, four entries
/// for each, exceed the budget.
pub open spec fn search_result(f: RoadView, start: int, goal: int, path: Seq<i32>) -> bool {
    let on_grid = is_cell(f.size, start) && is_cell(f.size, goal);
    &&& path == searched(f, start, goal)
    &&& !on_grid ==> path.len() == 0
    &&& on_grid && start == goal ==> path_cells(path) == seq![start]
    &&& path.len() > 0 ==> {
        &&& f.is_route(start, goal, path_cells(path))
        &&& path.no_duplicates()
        &&& forall|q: Seq<int>| #[trigger]
            f.is_route(start, goal, q) ==> f.no_dearer(f.route_sum(path_cells(path)), q)
    }
    &&& path.len() == 0 && on_grid ==> forall|q: Seq<int>| #[trigger]
        f.is_route(start, goal, q) ==> 1 + 4 * f.cells_within(start, goal, q) > SEARCH_BUDGET
}

/// A cheapest way, but for rounding, from `start` to `goal`, none of whose cells is water
/// but perhaps the first. Gives up after 20000 steps of the search, and then, as
/// where there is no way, returns no cells.
pub fn road_astar(
    size: usize,
    cells: &[i32],
    elev_code: &[u8],
    river_adjacent: &[u8],
    river_channel: &[u8],
    start: i32,
    goal: i32,
) -> (path: Vec<i32>)
    requires
        (RoadView {
            size: size as int,
            cells: cells@,
            elev_code: elev_code@,
            river_adjacent: river_adjacent@,
            river_channel: river_channel@,
        }).well_formed(),
    ensures
        search_result(
            (RoadView {
                size: size as int,
                cells: cells@,
                elev_code: elev_code@,
                river_adjacent: river_adjacent@,
                river_channel: river_channel@,
            }),
            start as int,
            goal as int,
            path@,
        ),
{
    let f = RoadField { size, cells, elev_code, river_adjacent, river_channel };
    let ghost v = f@;
    let ghost n = v.size;
    proof {
        lemma_side(n);
    }
    let count: usize = size * size;
    if start < 0 || goal < 0 || start as usize >= count || goal as usize >= count {
        return Vec::new();
    }
    if start == goal {
        let mut path: Vec<i32> = Vec::new();
        path.push(start);
        proof {
            assert(path_cells(path@) =~= seq![start as int]);
            assert forall|q: Seq<int>| #[trigger]
                v.is_route(start as int, goal as int, q) implies v.no_dearer(0, q) by {
                lemma_cost_nonneg(v, start as int, goal as int, q);
                assert(q.len() * 0 == 0);
            }
        }
        return path;
    }
    let ghost a = start as int;
    let ghost b = goal as int;
    let mut s = Search {
        gscore: vec![UNREACHED; count],
        came: vec![-1; count],
        closed: vec![false; count],
        open: OpenHeap::new(),
        settled: Ghost(Seq::empty()),
        pushed: Ghost(1),
        level: Ghost(0),
    };
    s.gscore.set(start as usize, 0);
    let ahead: i64 = estimate(&f, goal as usize, start as usize);
    proof {
        law_rounding_stays_close(ahead as int, SINGLE as int);
        law_rounding_stays_close(0, SINGLE as int);
        lemma_estimate_range(v, b, a);
        let j = lemma_grain_of(0, SINGLE as int);
    }
    let first: (u64, i32) = (round_single(ahead) as u64, start);
    s.open.push(first);
    let ghost begun = SearchState::begun(v, a, b);
    proof {
        assert(s.gscore@ =~= begun.gscore);
        assert(s.came@ =~= begun.came);
        assert(s.closed@ =~= begun.closed);
        assert(s.state() == begun);
        assert(s.open@.count(first) > 0);
        assert forall|c: int| is_cell(n, c) implies #[trigger] s.cell_state(v, a, b, c) by {
        }
        assert forall|e: (u64, i32)| #[trigger] s.entry_state(v, b, e) by {
            if s.open@.contains(e) {
                assert(e == first);
            }
        }
        assert(s.sound(v, a, b));
    }
    let mut expansions: i32 = 0;
    loop
        invariant
            v == f@,
            n == v.size,
            f.size == size,
            f.cells@ == cells@,
            f.elev_code@ == elev_code@,
            f.river_adjacent@ == river_adjacent@,
            f.river_channel@ == river_channel@,
            a == start,
            b == goal,
            a != b,
            is_cell(n, a),
            is_cell(n, b),
            0 <= expansions <= SEARCH_BUDGET,
            s.sound(v, a, b),
            s.relaxed_all(v, -1, 0),
            s.pushed@ == expansions + s.open@.len(),
            s.settled@.len() <= expansions,
            s.level@ >= 0,
            begun == SearchState::begun(v, a, b),
            begun.run_on(v, b, SEARCH_BUDGET as nat) == s.state().run_on(
                v,
                b,
                (SEARCH_BUDGET - expansions) as nat,
            ),
        decreases SEARCH_BUDGET - expansions,
    {
        let ghost s0 = s;
        proof {
            lemma_side(n);
            lemma_settled_len(&s, v, a, b);
        }
        let popped: Option<(u64, i32)> = s.open.pop();
        match popped {
            None => {
                proof {
                    assert forall|q: Seq<int>| !#[trigger] v.is_route(a, b, q) by {
                        lemma_no_way(&s0, v, a, b, q);
                    }
                }
                return Vec::new();
            },
            Some(entry) => {
                let current: i32 = entry.1;
                proof {
                    lemma_next_open(s0.open@, entry);
                    assert(s0.open@.count(entry) > 0);
                    assert(s0.open@.len() > 0) by {
                        assert(0 < s0.open@.count(entry) <= s0.open@.len());
                    }
                    assert(s.state() == SearchState {
                        open: s0.open@.remove(entry),
                        ..s0.state()
                    });
                }
                if expansions >= SEARCH_BUDGET {
                    proof {
                        assert(s0.open@.len() >= 1) by {
                            assert(0 < s0.open@.count(entry) <= s0.open@.len());
                        }
                        assert forall|q: Seq<int>| #[trigger] v.is_route(a, b, q) implies 1 + 4
                            * v.cells_within(a, b, q) > SEARCH_BUDGET by {
                            lemma_settled_within(&s0, v, a, b, q);
                        }
                    }
                    return Vec::new();
                }
                expansions += 1;
                let ghost cc = current as int;
                proof {
                    assert(s0.entry_state(v, b, entry));
                    assert(s0.cell_state(v, a, b, cc));
                    assert(s.open@.len() == s0.open@.len() - 1);
                }
                if current == goal {
                    proof {
                        assert forall|q: Seq<int>| #[trigger]
                            v.is_route(a, b, q) implies v.no_dearer(s0.gscore@[b] as int, q) by {
                            lemma_goal_cheapest(&s0, v, a, b, entry, q);
                        }
                    }
                    proof {
                        assert forall|c: int| is_cell(n, c) implies #[trigger] came_over(
                            v,
                            s.gscore@,
                            s.came@,
                            a,
                            c,
                        ) by {
                            assert(s0.cell_state(v, a, b, c));
                            if s0.reached(c) && c != a {
                                lemma_cost_rises(&s0, v, a, b, c);
                            }
                        }
                    }
                    return reconstruct(&f, &s.gscore, &s.came, goal as usize, Ghost(a));
                }
                let cu: usize = current as usize;
                if s.closed[cu] {
                    proof {
                        lemma_skip_entry(&s0, &s, v, a, b, entry);
                    }
                } else {
                    s.closed.set(cu, true);
                    proof {
                        s.settled@ = s.settled@.push(current);
                        if s0.through(v, b, current as int) > s0.level@ {
                            s.level@ = s0.through(v, b, current as int);
                        }
                        lemma_settle(&s0, &s, v, a, b, entry);
                    }
                    let ghost settled = s.state();
                    let mut k: usize = 0;
                    while k < 4
                        invariant
                            k <= 4,
                            v == f@,
                            n == v.size,
                            b == goal,
                            is_cell(n, cu as int),
                            s.sound(v, a, b),
                            s.closed@[cu as int],
                            a != b,
                            s.level@ >= s.through(v, b, cu as int),
                            s.level@ >= 0,
                            s.settled@.len() <= expansions,
                            0x40_0000 * (s.level@ - s.potential(v, b, cu as int)) <= s.potential(
                                v,
                                b,
                                cu as int,
                            ),
                            s.gscore@[cu as int] + 29 * ROAD_ONE <= 29 * ROAD_ONE
                                * s.settled@.len(),
                            s.relaxed_all(v, cu as int, k as int),
                            s.pushed@ + (4 - k) <= 1 + 4 * s.settled@.len(),
                            s.pushed@ == expansions + s.open@.len(),
                            s.state() == settled.offered_upto(v, b, cu as int, k as nat),
                        decreases 4 - k,
                    {
                        offer_way(&f, goal as usize, cu, k, &mut s, Ghost(a));
                        k += 1;
                    }
                    assert(s.relaxed_all(v, -1, 0)) by {
                        assert forall|c: int, k2: int|
                            is_cell(n, c) && 0 <= k2 < 4 && c != -1 implies #[trigger] s.relaxed(
                            v,
                            c,
                            k2,
                        ) by {
                        }
                    }
                }
            },
        }
    }
}

/// A cell costs more than the one it was reached from.
proof fn lemma_cost_rises(s: &Search, f: RoadView, start: int, goal: int, c: int)
    requires
        s.sound(f, start, goal),
        is_cell(f.size, c),
        s.reached(c),
        c != start,
    ensures
        s.reached(s.came@[c] as int),
        s.gscore@[s.came@[c] as int] < s.gscore@[c],
{
    assert(s.cell_state(f, start, goal, c));
    let from = s.came@[c] as int;
    assert(s.cell_state(f, start, goal, from));
    lemma_cost_of_reached(s, f, start, goal, from);
    lemma_step_range(f, from, c);
    law_rounding_stays_close(s.gscore@[from] + f.step_cost(from, c), SINGLE as int);
}

/// Every reached cell has a way of its known cost.
proof fn lemma_way_to(s: &Search, f: RoadView, start: int, goal: int, c: int) -> (p: Seq<int>)
    requires
        s.sound(f, start, goal),
        is_cell(f.size, c),
        s.reached(c),
    ensures
        f.is_route(start, c, p),
        f.route_sum(p) == s.gscore@[c],
    decreases s.gscore@[c],
{
    assert(s.cell_state(f, start, goal, c));
    if c == start {
        seq![start]
    } else {
        let from = s.came@[c] as int;
        lemma_cost_rises(s, f, start, goal, c);
        let p = lemma_way_to(s, f, start, goal, from);
        let q = p.push(c);
        assert(q.drop_last() =~= p);
        assert forall|i: int| 0 < i < q.len() implies adjacent(f.size, q[i - 1], #[trigger] q[i])
            && !wet(f.cells, q[i]) by {
            if i < p.len() {
                assert(adjacent(f.size, p[i - 1], p[i]));
            }
        }
        q
    }
}

/// The settled cells all lie within the cost of any way to the goal.
proof fn lemma_settled_within(s: &Search, f: RoadView, start: int, goal: int, q: Seq<int>)
    requires
        s.sound(f, start, goal),
        s.relaxed_all(f, -1, 0),
        start != goal,
        f.is_route(start, goal, q),
        s.level@ >= 0,
    ensures
        s.settled@.len() <= f.cells_within(start, goal, q),
{
    let i = lemma_way_through(s, f, start, goal, q);
    lemma_open_level(s, f, start, goal, q[i]);
    lemma_cost_of_reached(s, f, start, goal, q[i]);
    lemma_side(f.size);
    let all = vstd::set_lib::set_int_range(0, f.size * f.size);
    let near = all.filter(|c: int| f.within(start, goal, q, c));
    let list = s.settled@.map_values(|c: i32| c as int);
    vstd::set_lib::lemma_int_range(0, f.size * f.size);
    assert(list.no_duplicates()) by {
        assert forall|x: int, y: int|
            0 <= x < list.len() && 0 <= y < list.len() && x != y implies list[x] != list[y] by {
            assert(s.settled@[x] != s.settled@[y]);
        }
    }
    list.unique_seq_to_set();
    assert(list.to_set().subset_of(near)) by {
        assert forall|c: int| list.to_set().contains(c) implies near.contains(c) by {
            let k = choose|k: int| 0 <= k < list.len() && list[k] == c;
            assert(is_cell(f.size, s.settled@[k] as int));
            assert(s.settled@.contains(c as i32));
            assert(s.cell_state(f, start, goal, c));
            let p = lemma_way_to(s, f, start, goal, c);
            lemma_cost_of_reached(s, f, start, goal, c);
            lemma_settled_bound(
                s.through(f, goal, c),
                s.through(f, goal, q[i]),
                s.level@,
                f.route_cost(q),
                i,
                q.len() as int,
            );
            assert(f.within(start, goal, q, c));
        }
    }
    vstd::set_lib::lemma_len_subset(list.to_set(), near);
}

proof fn lemma_cost_nonneg(f: RoadView, start: int, goal: int, p: Seq<int>)
    requires
        f.well_formed(),
        f.is_route(start, goal, p),
    ensures
        0 <= f.route_cost(p),
    decreases p.len(),
{
    if p.len() > 1 {
        let q = p.drop_last();
        assert(is_cell(f.size, p[p.len() - 1]) && is_cell(f.size, p[p.len() - 2]));
        lemma_step_range(f, p[p.len() - 2], p[p.len() - 1]);
        assert forall|i: int| 0 < i < q.len() implies adjacent(f.size, q[i - 1], #[trigger] q[i])
            && !wet(f.cells, q[i]) by {
            assert(p[i] == q[i] && p[i - 1] == q[i - 1]);
        }
        assert forall|i: int| 0 <= i < q.len() implies is_cell(f.size, #[trigger] q[i]) by {
            assert(p[i] == q[i]);
        }
        lemma_cost_nonneg(f, start, q.last(), q);
    }
}

/// Dropping an entry of a settled cell changes nothing else.
proof fn lemma_skip_entry(
    s0: &Search,
    s: &Search,
    f: RoadView,
    start: int,
    goal: int,
    entry: (u64, i32),
)
    requires
        s0.sound(f, start, goal),
        s0.relaxed_all(f, -1, 0),
        s0.open@.contains(entry),
        s0.closed@[entry.1 as int],
        s.gscore@ == s0.gscore@,
        s.came@ == s0.came@,
        s.closed@ == s0.closed@,
        s.settled@ == s0.settled@,
        s.level@ == s0.level@,
        s.pushed@ == s0.pushed@,
        s.open@ == s0.open@.remove(entry),
        s.open.well_formed(),
    ensures
        s.sound(f, start, goal),
        s.relaxed_all(f, -1, 0),
{
    lemma_side(f.size);
    assert forall|c: int| is_cell(f.size, c) implies #[trigger] s.cell_state(f, start, goal, c) by {
        assert(s0.cell_state(f, start, goal, c));
        if s0.reached(c) && !s0.closed@[c] {
            let e = (single(s0.through(f, goal, c)) as u64, c as i32);
            assert(s0.open@.contains(e));
            assert(e != entry);
            assert(s.open@.count(e) == s0.open@.count(e));
            assert(s.potential(f, goal, c) == s0.potential(f, goal, c));
        }
    }
    assert forall|e: (u64, i32)| #[trigger] s.entry_state(f, goal, e) by {
        assert(s0.entry_state(f, goal, e));
        if s.open@.contains(e) {
            assert(s.open@.count(e) <= s0.open@.count(e));
        }
    }
    assert forall|c: int, k: int|
        is_cell(f.size, c) && 0 <= k < 4 && c != -1 implies #[trigger] s.relaxed(f, c, k) by {
        assert(s0.relaxed(f, c, k));
    }
}

/// Settling the cell of the first open entry keeps the search sound.
#[verifier::spinoff_prover]
proof fn lemma_settle(
    s0: &Search,
    s: &Search,
    f: RoadView,
    start: int,
    goal: int,
    entry: (u64, i32),
)
    requires
        s0.sound(f, start, goal),
        s0.relaxed_all(f, -1, 0),
        s0.open@.contains(entry),
        forall|other: (u64, i32)|
            s0.open@.contains(other) ==> !#[trigger] comes_first(other, entry),
        !s0.closed@[entry.1 as int],
        entry.1 != goal,
        start != goal,
        s0.settled@.len() < SEARCH_BUDGET,
        s.gscore@ == s0.gscore@,
        s.came@ == s0.came@,
        s.closed@ == s0.closed@.update(entry.1 as int, true),
        s.settled@ == s0.settled@.push(entry.1),
        s.level@ == if s0.through(f, goal, entry.1 as int) > s0.level@ {
            s0.through(f, goal, entry.1 as int)
        } else {
            s0.level@
        },
        s.pushed@ == s0.pushed@,
        s.open@ == s0.open@.remove(entry),
        s.open.well_formed(),
    ensures
        s.sound(f, start, goal),
        s.closed@[entry.1 as int],
        s.level@ >= s.through(f, goal, entry.1 as int),
        0x40_0000 * (s.level@ - s.potential(f, goal, entry.1 as int)) <= s.potential(
            f,
            goal,
            entry.1 as int,
        ),
        s.gscore@[entry.1 as int] + 29 * ROAD_ONE <= 29 * ROAD_ONE * s.settled@.len(),
        s.relaxed_all(f, entry.1 as int, 0),
        s.pushed@ + 4 <= 1 + 4 * s.settled@.len(),
{
    let cc = entry.1 as int;
    lemma_side(f.size);
    lemma_settled_len(s0, f, start, goal);
    assert(s0.entry_state(f, goal, entry));
    assert(s0.cell_state(f, start, goal, cc));
    lemma_estimate_range(f, goal, cc);
    lemma_open_level(s0, f, start, goal, cc);
    lemma_cost_of_reached(s0, f, start, goal, cc);
    assert(s.potential(f, goal, cc) == s0.potential(f, goal, cc));
    let v0 = s0.settled@;
    let v1 = s.settled@;
    assert forall|i: int, j: int| 0 <= i < v1.len() && 0 <= j < v1.len() && i != j implies v1[i]
        != v1[j] by {
        if i == v0.len() {
            assert(v0.contains(v0[j]));
        } else if j == v0.len() {
            assert(v0.contains(v0[i]));
        }
    }
    assert forall|i: int| 0 <= i < v1.len() implies is_cell(f.size, #[trigger] v1[i] as int) by {
        if i < v0.len() {
            assert(is_cell(f.size, v0[i] as int));
        }
    }
    assert forall|c: int| is_cell(f.size, c) implies #[trigger] s.cell_state(f, start, goal, c) by {
        assert(s0.cell_state(f, start, goal, c));
        if v0.contains(c as i32) {
            let j = choose|j: int| 0 <= j < v0.len() && v0[j] == c as i32;
            assert(v1[j] == c as i32);
        }
        if c == cc {
            assert(v1[v0.len() as int] == c as i32);
        } else {
            if v1.contains(c as i32) {
                let j = choose|j: int| 0 <= j < v1.len() && v1[j] == c as i32;
                assert(v0[j] == c as i32);
            }
            if s0.reached(c) && !s0.closed@[c] {
                let e = (single(s0.through(f, goal, c)) as u64, c as i32);
                assert(s0.open@.contains(e));
                assert(e != entry);
                assert(s.open@.count(e) == s0.open@.count(e));
                assert(s.potential(f, goal, c) == s0.potential(f, goal, c));
                lemma_first_out(s0, f, start, goal, entry, c);
                lemma_open_level(s0, f, start, goal, c);
                assert(s.open@.contains(e));
            }
        }
        assert(s.closed@[c] <==> v1.contains(c as i32));
        assert(s.through(f, goal, c) == s0.through(f, goal, c));
        assert(s0.level@ <= s.level@);
        assert(v1.len() == v0.len() + 1);
        if s0.reached(c) && c != start {
            assert(s0.closed@[s0.came@[c] as int]);
            assert(s.closed@[s0.came@[c] as int]);
        }
    }
    assert forall|e: (u64, i32)| #[trigger] s.entry_state(f, goal, e) by {
        assert(s0.entry_state(f, goal, e));
        if s.open@.contains(e) {
            assert(s.open@.count(e) <= s0.open@.count(e));
            assert(s0.open@.contains(e));
        }
    }
    assert forall|c: int, k: int|
        is_cell(f.size, c) && 0 <= k < 4 && (c != cc || k < 0) implies #[trigger] s.relaxed(
        f,
        c,
        k,
    ) by {
        assert(s0.relaxed(f, c, k));
    }
}

/// Where four entries for each cell of the grid are within the budget, a search that finds
/// nothing shows that there is no way.
pub proof fn law_small_grids_are_searched_through(
    f: RoadView,
    start: int,
    goal: int,
    path: Seq<i32>,
    q: Seq<int>,
)
    requires
        f.well_formed(),
        is_cell(f.size, start),
        is_cell(f.size, goal),
        search_result(f, start, goal, path),
        1 + 4 * (f.size * f.size) <= SEARCH_BUDGET,
        path.len() == 0,
    ensures
        !f.is_route(start, goal, q),
{
    if f.is_route(start, goal, q) {
        let all = vstd::set_lib::set_int_range(0, f.size * f.size);
        lemma_side(f.size);
        vstd::set_lib::lemma_int_range(0, f.size * f.size);
        vstd::set_lib::lemma_len_subset(
            all.filter(|c: int| f.within(start, goal, q, c)),
            all,
        );
    }
}

} // verus!
