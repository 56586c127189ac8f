//! Drainage: all land is flooded from the water inland, lowest first, and hands
//! its water on to its lowest neighbour.

use crate::atlas::biomes::Biome;
use crate::atlas::grid::{
    adjacent, cell_list, cell_x, cell_z, is_cell, neighbor, side_ok, step, lemma_adjacent_symmetric,
    lemma_cell_coords, lemma_distinct_len, lemma_grid_joined, lemma_joined_induction, lemma_side,
    lemma_step,
};
use crate::atlas::pack::{biome, cell_biome_id, cell_is_water, cell_valid};
use crate::atlas::seeds::{decimal_text, feature_hash, feature_hash_of, part_views};
use crate::atlas::types::Lake;
use crate::text::{decimal, push_decimal};
use vstd::prelude::*;
use vstd::string::*;

verus! {

/// Every cell names a biome, and every lake cell names a lake whose surface is
/// an elevation code.
pub open spec fn water_known(
    size: int,
    cells: Seq<i32>,
    lake_id: Seq<i32>,
    lakes: Seq<Lake>,
) -> bool {
    &&& cells.len() == size * size
    &&& lake_id.len() == size * size
    &&& forall|c: int| is_cell(size, c) ==> cell_valid(#[trigger] cells[c])
    &&& forall|c: int|
        is_cell(size, c) && cell_biome_id(#[trigger] cells[c]) == 8 ==> {
            &&& 0 <= lake_id[c] < lakes.len()
            &&& 0 <= lakes[lake_id[c] as int].surface_code <= 255
        }
}

pub open spec fn wet(cells: Seq<i32>, c: int) -> bool {
    cell_is_water(cells[c])
}

/// The level water stands at in a cell of sea or lake.
pub open spec fn water_level(
    cells: Seq<i32>,
    elev: Seq<u8>,
    lake_id: Seq<i32>,
    lakes: Seq<Lake>,
    c: int,
) -> int {
    if cell_biome_id(cells[c]) == 8 {
        lakes[lake_id[c] as int].surface_code as int
    } else {
        elev[c] as int
    }
}

/// What draining leaves of one cell. Water keeps its level and has no receiver;
/// land that drains hands on to its lowest neighbour and is raised to it where
/// it was lower.
pub open spec fn drained_cell(
    size: int,
    cells: Seq<i32>,
    elev0: Seq<u8>,
    lake_id: Seq<i32>,
    lakes: Seq<Lake>,
    elev: Seq<u8>,
    receiver: Seq<i32>,
    c: int,
) -> bool {
    if wet(cells, c) {
        receiver[c] == -1 && elev[c] == water_level(cells, elev0, lake_id, lakes, c)
    } else if receiver[c] == -1 {
        elev[c] == elev0[c]
    } else {
        &&& is_cell(size, receiver[c] as int)
        &&& adjacent(size, receiver[c] as int, c)
        &&& elev[c] == (if elev0[c] < elev[receiver[c] as int] {
            elev[receiver[c] as int]
        } else {
            elev0[c]
        })
    }
}

/// The receiver of a draining cell is none of its higher neighbours.
pub open spec fn receiver_lowest(
    size: int,
    elev: Seq<u8>,
    receiver: Seq<i32>,
    y: int,
    c: int,
) -> bool {
    adjacent(size, y, c) && receiver[c] >= 0 ==> elev[receiver[c] as int] <= elev[y]
}

/// `order` lists the draining cells, each after its receiver.
pub open spec fn drains_in_order(
    size: int,
    cells: Seq<i32>,
    receiver: Seq<i32>,
    order: Seq<usize>,
) -> bool {
    &&& order.no_duplicates()
    &&& forall|p: int|
        0 <= p < order.len() ==> is_cell(size, #[trigger] order[p] as int) && !wet(
            cells,
            order[p] as int,
        ) && receiver[order[p] as int] >= 0
    &&& forall|c: int|
        is_cell(size, c) && #[trigger] receiver[c] >= 0 ==> order.contains(c as usize)
    &&& forall|p: int|
        #![trigger order[p]]
        0 <= p < order.len() ==> wet(cells, receiver[order[p] as int] as int) || exists|q: int|
            0 <= q < p && #[trigger] order[q] == receiver[order[p] as int]
}

/// A flood: the cells it has closed, the closed cells still to be visited by their level,
/// the elevations and receivers so far, and the land visited so far.
pub ghost struct FloodState {
    pub closed: Seq<bool>,
    pub buckets: Seq<Seq<i32>>,
    pub elev: Seq<u8>,
    pub receiver: Seq<i32>,
    pub order: Seq<usize>,
}

/// The side from which the flooded cell `c` starts to look round.
pub open spec fn first_side_of(world_seed: i32, size: int, c: int) -> int {
    (feature_hash_of(
        seq![
            decimal(world_seed as int) + ":flood:"@ + decimal(cell_x(size, c)) + ":"@ + decimal(
                cell_z(size, c),
            ),
        ],
    ) as u32) as int % 4
}

/// A flood before anything ran, the water among the first `n` cells closed at its level.
pub open spec fn flood_start(
    size: int,
    cells: Seq<i32>,
    elev0: Seq<u8>,
    lake_id: Seq<i32>,
    lakes: Seq<Lake>,
    n: nat,
) -> FloodState
    decreases n,
{
    if n == 0 {
        FloodState {
            closed: Seq::new((size * size) as nat, |c: int| false),
            buckets: Seq::new(256, |b: int| Seq::<i32>::empty()),
            elev: elev0,
            receiver: Seq::new((size * size) as nat, |c: int| -1i32),
            order: Seq::empty(),
        }
    } else {
        let s = flood_start(size, cells, elev0, lake_id, lakes, (n - 1) as nat);
        let c = n - 1;
        if wet(cells, c) {
            let level = water_level(cells, elev0, lake_id, lakes, c);
            FloodState {
                closed: s.closed.update(c, true),
                buckets: s.buckets.update(level, s.buckets[level].push(c as i32)),
                elev: s.elev.update(c, level as u8),
                ..s
            }
        } else {
            s
        }
    }
}

/// The lowest level from `from` on at which a cell waits, 256 where there is none.
pub open spec fn lowest_open(buckets: Seq<Seq<i32>>, from: int) -> int
    decreases 256 - from,
{
    if from >= 256 {
        256
    } else if buckets[from].len() > 0 {
        from
    } else {
        lowest_open(buckets, from + 1)
    }
}

impl FloodState {
    /// The level of the next visit.
    pub open spec fn next_level(self) -> int {
        lowest_open(self.buckets, 0)
    }

    /// The cell of the next visit: the last that came to the lowest level.
    pub open spec fn next_cell(self) -> int {
        self.buckets[self.next_level()].last() as int
    }

    /// The next cell is taken out; land is listed.
    pub open spec fn taken(self, cells: Seq<i32>) -> FloodState {
        let b = self.next_level();
        FloodState {
            buckets: self.buckets.update(b, self.buckets[b].drop_last()),
            order: if wet(cells, self.next_cell()) {
                self.order
            } else {
                self.order.push(self.next_cell() as usize)
            },
            ..self
        }
    }

    /// The visited cell `c` closes its neighbour on side `k`, unless that is closed: the
    /// neighbour hands its water to `c` and is raised to it where it was lower.
    pub open spec fn looked_at(self, size: int, c: int, k: int) -> FloodState {
        match step(size, c, k) {
            Some(d) => if self.closed[d] {
                self
            } else {
                let level = if self.elev[d] < self.elev[c] {
                    self.elev[c]
                } else {
                    self.elev[d]
                };
                FloodState {
                    closed: self.closed.update(d, true),
                    buckets: self.buckets.update(
                        level as int,
                        self.buckets[level as int].push(d as i32),
                    ),
                    elev: self.elev.update(d, level),
                    receiver: self.receiver.update(d, c as i32),
                    ..self
                }
            },
            None => self,
        }
    }

    /// `c` has looked at its first `turns` sides, beginning with side `first`.
    pub open spec fn looked_about(self, size: int, c: int, first: int, turns: nat) -> FloodState
        decreases turns,
    {
        if turns == 0 {
            self
        } else {
            self.looked_about(size, c, first, (turns - 1) as nat).looked_at(
                size,
                c,
                (first + turns - 1) % 4,
            )
        }
    }

    /// One visit later.
    pub open spec fn visited(self, world_seed: i32, size: int, cells: Seq<i32>) -> FloodState {
        let c = self.next_cell();
        self.taken(cells).looked_about(size, c, first_side_of(world_seed, size, c), 4)
    }

    /// At most `fuel` visits later, as long as cells wait.
    pub open spec fn run_on(self, world_seed: i32, size: int, cells: Seq<i32>, fuel: nat) -> FloodState
        decreases fuel,
    {
        if fuel == 0 || self.next_level() >= 256 {
            self
        } else {
            self.visited(world_seed, size, cells).run_on(world_seed, size, cells, (fuel - 1) as nat)
        }
    }
}

/// What a flood from all water comes to.
pub open spec fn flooded(
    world_seed: i32,
    size: int,
    cells: Seq<i32>,
    elev0: Seq<u8>,
    lake_id: Seq<i32>,
    lakes: Seq<Lake>,
) -> FloodState {
    flood_start(size, cells, elev0, lake_id, lakes, (size * size) as nat).run_on(
        world_seed,
        size,
        cells,
        (size * size) as nat,
    )
}

fn flood_text(world_seed: i32, ax: i32, az: i32) -> (r: String)
    ensures
        r@ == decimal(world_seed as int) + ":flood:"@ + decimal(ax as int) + ":"@ + decimal(
            az as int,
        ),
{
    let mut key: String = decimal_text(world_seed as i64);
    key.append(":flood:");
    push_decimal(&mut key, ax as i64);
    key.append(":");
    push_decimal(&mut key, az as i64);
    key
}

/// The side from which a flooded cell starts to look round, drawn from its place
/// so that drainage favours no direction.
fn first_side(world_seed: i32, ax: i32, az: i32) -> (r: usize)
    ensures
        r < 4,
        r == (feature_hash_of(
            seq![
                decimal(world_seed as int) + ":flood:"@ + decimal(ax as int) + ":"@ + decimal(
                    az as int,
                ),
            ],
        ) as u32) % 4,
{
    let key: String = flood_text(world_seed, ax, az);
    let parts: [&str; 1] = [key.as_str()];
    assert(part_views(parts@) =~= seq![key@]);
    let h: i32 = feature_hash(&parts);
    (h as u32 % 4) as usize
}

/// A flood in progress: the cells it has closed, the closed cells still to be
/// visited, bucketed by level, the lowest level that may hold one, and the
/// draining cells in the order of their visits.
struct Flood {
    closed: Vec<bool>,
    buckets: Vec<Vec<i32>>,
    open_min: usize,
    order: Vec<usize>,
    visited: Ghost<Seq<bool>>,
    visits: Ghost<Seq<i32>>,
}

/// The map a flood runs on.
ghost struct Basin {
    size: int,
    cells: Seq<i32>,
    elev0: Seq<u8>,
    lake_id: Seq<i32>,
    lakes: Seq<Lake>,
}

/// The buckets as sequences.
spec fn bucket_views(buckets: Seq<Vec<i32>>) -> Seq<Seq<i32>> {
    buckets.map_values(|b: Vec<i32>| b@)
}

impl Flood {
    spec fn state(&self, elev: Seq<u8>, receiver: Seq<i32>) -> FloodState {
        FloodState {
            closed: self.closed@,
            buckets: bucket_views(self.buckets@),
            elev,
            receiver,
            order: self.order@,
        }
    }

    spec fn shaped(&self, m: Basin, elev: Seq<u8>, receiver: Seq<i32>) -> bool {
        let n2 = m.size * m.size;
        &&& side_ok(m.size)
        &&& water_known(m.size, m.cells, m.lake_id, m.lakes)
        &&& m.elev0.len() == n2
        &&& elev.len() == n2
        &&& receiver.len() == n2
        &&& self.closed@.len() == n2
        &&& self.visited@.len() == n2
        &&& self.buckets@.len() == 256
        &&& self.open_min <= 256
        &&& cell_list(m.size, self.visits@)
        &&& self.order@.no_duplicates()
    }

    spec fn cell_state(&self, m: Basin, elev: Seq<u8>, receiver: Seq<i32>, c: int) -> bool {
        &&& drained_cell(m.size, m.cells, m.elev0, m.lake_id, m.lakes, elev, receiver, c)
        &&& wet(m.cells, c) ==> self.closed@[c]
        &&& !wet(m.cells, c) ==> (self.closed@[c] <==> receiver[c] >= 0)
        &&& self.closed@[c] && !self.visited@[c] ==> {
            &&& self.open_min <= elev[c]
            &&& self.buckets@[elev[c] as int]@.contains(c as i32)
        }
        &&& self.visited@[c] ==> {
            &&& self.closed@[c]
            &&& elev[c] <= self.open_min
            &&& !wet(m.cells, c) ==> self.order@.contains(c as usize)
        }
        &&& self.visited@[c] <==> self.visits@.contains(c as i32)
        &&& receiver[c] >= 0 ==> self.visited@[receiver[c] as int]
    }

    spec fn bucket_state(&self, m: Basin, elev: Seq<u8>, b: int) -> bool {
        &&& self.buckets@[b]@.no_duplicates()
        &&& forall|j: int|
            0 <= j < self.buckets@[b]@.len() ==> {
                &&& is_cell(m.size, #[trigger] self.buckets@[b]@[j] as int)
                &&& self.closed@[self.buckets@[b]@[j] as int]
                &&& !self.visited@[self.buckets@[b]@[j] as int]
                &&& elev[self.buckets@[b]@[j] as int] == b
            }
    }

    spec fn looked(&self, m: Basin, elev: Seq<u8>, receiver: Seq<i32>, y: int, k: int) -> bool {
        self.visited@[y] ==> match step(m.size, y, k) {
            Some(c) => {
                &&& self.closed@[c]
                &&& receiver[c] >= 0 ==> elev[receiver[c] as int] <= elev[y]
            },
            None => true,
        }
    }

    spec fn order_state(&self, m: Basin, receiver: Seq<i32>, p: int) -> bool {
        let c = self.order@[p] as int;
        &&& is_cell(m.size, c)
        &&& self.visited@[c]
        &&& !wet(m.cells, c)
        &&& wet(m.cells, receiver[c] as int) || exists|q: int|
            0 <= q < p && #[trigger] self.order@[q] == receiver[c]
    }

    spec fn sound(&self, m: Basin, elev: Seq<u8>, receiver: Seq<i32>) -> bool {
        &&& self.shaped(m, elev, receiver)
        &&& forall|c: int| is_cell(m.size, c) ==> #[trigger] self.cell_state(m, elev, receiver, c)
        &&& forall|b: int| 0 <= b < 256 ==> #[trigger] self.bucket_state(m, elev, b)
        &&& forall|p: int|
            0 <= p < self.order@.len() ==> #[trigger] self.order_state(m, receiver, p)
    }

    /// Every visited cell was looked round, but for the sides of `cur` from
    /// `turn` on, counted from `first`.
    spec fn looked_round(
        &self,
        m: Basin,
        elev: Seq<u8>,
        receiver: Seq<i32>,
        cur: int,
        first: int,
        turn: int,
    ) -> bool {
        forall|y: int, k: int|
            is_cell(m.size, y) && 0 <= k < 4 && (y != cur || side_turn(first, k) < turn)
                ==> #[trigger] self.looked(m, elev, receiver, y, k)
    }
}

/// The turn at which side `k` is looked at, starting from side `first`.
spec fn side_turn(first: int, k: int) -> int {
    (k - first) % 4
}

/// Starts a flood from all water, each lake at its surface.
#[verifier::loop_isolation(false)]
fn flood_from_water(
    size: usize,
    cells: &[i32],
    elev_code: &mut [u8],
    lake_id: &[i32],
    lakes: &[Lake],
    receiver: &[i32],
) -> (f: Flood)
    requires
        side_ok(size as int),
        water_known(size as int, cells@, lake_id@, lakes@),
        old(elev_code)@.len() == size * size,
        receiver@.len() == size * size,
        forall|c: int| is_cell(size as int, c) ==> #[trigger] receiver@[c] == -1,
    ensures
        f.sound(
            (Basin {
                size: size as int,
                cells: cells@,
                elev0: old(elev_code)@,
                lake_id: lake_id@,
                lakes: lakes@,
            }),
            final(elev_code)@,
            receiver@,
        ),
        f.visits@.len() == 0,
        forall|c: int| is_cell(size as int, c) ==> !#[trigger] f.visited@[c],
        f.state(final(elev_code)@, receiver@) == flood_start(
            size as int,
            cells@,
            old(elev_code)@,
            lake_id@,
            lakes@,
            (size * size) as nat,
        ),
{
    let ghost n = size as int;
    let ghost elev0 = elev_code@;
    let ghost m = Basin { size: n, cells: cells@, elev0, lake_id: lake_id@, lakes: lakes@ };
    proof {
        lemma_side(n);
    }
    let count: usize = size * size;
    let mut closed: Vec<bool> = vec![false; count];
    let mut buckets: Vec<Vec<i32>> = Vec::new();
    let mut e: usize = 0;
    while e < 256
        invariant
            e <= 256,
            buckets@.len() == e,
            forall|b: int| 0 <= b < e ==> (#[trigger] buckets@[b])@.len() == 0,
        decreases 256 - e,
    {
        buckets.push(Vec::new());
        e += 1;
    }
    let mut open_min: usize = 256;
    let mut i: usize = 0;
    proof {
        let s = flood_start(n, cells@, elev0, lake_id@, lakes@, 0);
        assert(closed@ =~= s.closed);
        assert forall|b: int| 0 <= b < 256 implies #[trigger] bucket_views(buckets@)[b]
            == s.buckets[b] by {
            assert(buckets@[b]@ =~= Seq::<i32>::empty());
        }
        assert(bucket_views(buckets@) =~= s.buckets);
        assert(receiver@ =~= s.receiver);
    }
    while i < count
        invariant
            i <= count,
            (FloodState {
                closed: closed@,
                buckets: bucket_views(buckets@),
                elev: elev_code@,
                receiver: receiver@,
                order: Seq::empty(),
            }) == flood_start(n, cells@, elev0, lake_id@, lakes@, i as nat),
            closed@.len() == n * n,
            buckets@.len() == 256,
            elev_code@.len() == n * n,
            open_min <= 256,
            forall|c: int|
                is_cell(n, c) ==> #[trigger] closed@[c] == (c < i && wet(cells@, c)),
            forall|c: int|
                is_cell(n, c) ==> #[trigger] elev_code@[c] == (if c < i && wet(cells@, c) {
                    water_level(cells@, elev0, lake_id@, lakes@, c)
                } else {
                    elev0[c] as int
                }),
            forall|c: int|
                is_cell(n, c) && #[trigger] closed@[c] ==> open_min <= elev_code@[c]
                    && buckets@[elev_code@[c] as int]@.contains(c as i32),
            forall|b: int| 0 <= b < 256 ==> (#[trigger] buckets@[b])@.no_duplicates(),
            forall|b: int, j: int|
                #![trigger buckets@[b]@[j]]
                0 <= b < 256 && 0 <= j < buckets@[b]@.len() ==> is_cell(n, buckets@[b]@[j] as int)
                    && closed@[buckets@[b]@[j] as int] && elev_code@[buckets@[b]@[j] as int] == b,
        decreases count - i,
    {
        let ghost buckets_b = buckets@;
        let ghost closed_b = closed@;
        let ghost elev_b = elev_code@;
        assert(cell_valid(cells@[i as int]));
        let here: Biome = biome(cells[i]);
        if here == Biome::Ocean || here == Biome::Lake {
            if here == Biome::Lake {
                assert(cell_biome_id(cells@[i as int]) == 8);
                let level: i32 = lakes[lake_id[i] as usize].surface_code;
                elev_code[i] = level as u8;
            }
            let level: usize = elev_code[i] as usize;
            buckets[level].push(i as i32);
            closed.set(i, true);
            if level < open_min {
                open_min = level;
            }
            proof {
                let lv = level as int;
                assert(buckets@ =~= buckets_b.update(lv, buckets@[lv]));
                assert(buckets@[lv]@ =~= buckets_b[lv]@.push(i as i32));
                assert(bucket_views(buckets@) =~= bucket_views(buckets_b).update(
                    lv,
                    bucket_views(buckets_b)[lv].push(i as i32),
                ));
                assert(elev_code@ =~= elev_b.update(i as int, level as u8));
                assert forall|b: int, j: int|
                    #![trigger buckets@[b]@[j]]
                    0 <= b < 256 && 0 <= j < buckets@[b]@.len() implies is_cell(
                    n,
                    buckets@[b]@[j] as int,
                ) && closed@[buckets@[b]@[j] as int] && elev_code@[buckets@[b]@[j] as int] == b by {
                    if b != lv || j < buckets_b[lv]@.len() {
                        assert(buckets@[b]@[j] == buckets_b[b]@[j]);
                        assert(closed_b[buckets_b[b]@[j] as int]);
                    }
                }
                assert forall|b: int| 0 <= b < 256 implies (#[trigger] buckets@[b])@.no_duplicates() by {
                    assert(buckets_b[b]@.no_duplicates());
                    if b == lv {
                        assert forall|x: int, y: int|
                            0 <= x < buckets@[b]@.len() && 0 <= y < buckets@[b]@.len() && x
                                != y implies buckets@[b]@[x] != buckets@[b]@[y] by {
                            if x == buckets_b[b]@.len() {
                                assert(closed_b[buckets_b[b]@[y] as int]);
                            } else if y == buckets_b[b]@.len() {
                                assert(closed_b[buckets_b[b]@[x] as int]);
                            }
                        }
                    }
                }
                assert forall|c: int| is_cell(n, c) && #[trigger] closed@[c] implies open_min
                    <= elev_code@[c] && buckets@[elev_code@[c] as int]@.contains(c as i32) by {
                    if c == i {
                        assert(buckets@[lv]@[buckets_b[lv]@.len() as int] == c as i32);
                    } else {
                        assert(closed_b[c]);
                        let b = elev_b[c] as int;
                        let j = choose|j: int|
                            0 <= j < buckets_b[b]@.len() && buckets_b[b]@[j] == c as i32;
                        assert(buckets@[b]@[j] == c as i32);
                    }
                }
            }
        }
        i += 1;
    }
    let f = Flood {
        closed,
        buckets,
        open_min,
        order: Vec::new(),
        visited: Ghost(Seq::new((n * n) as nat, |c: int| false)),
        visits: Ghost(Seq::empty()),
    };
    proof {
        assert forall|c: int| is_cell(n, c) implies #[trigger] f.cell_state(
            m,
            elev_code@,
            receiver@,
            c,
        ) by {
            assert(receiver@[c] == -1);
            assert(f.closed@[c] == wet(cells@, c));
        }
        assert forall|b: int| 0 <= b < 256 implies #[trigger] f.bucket_state(m, elev_code@, b) by {
            assert(f.buckets@[b]@.no_duplicates());
        }
    }
    f
}

/// Closes the neighbour of the visited cell `cell` on side `k`, unless it is.
fn flood_side(
    size: usize,
    cell: i32,
    k: usize,
    elev_code: &mut [u8],
    receiver: &mut [i32],
    f: &mut Flood,
    Ghost(m): Ghost<Basin>,
    Ghost(first): Ghost<int>,
    Ghost(turn): Ghost<int>,
)
    requires
        m.size == size,
        is_cell(size as int, cell as int),
        k < 4,
        0 <= first < 4,
        0 <= turn < 4,
        k == (first + turn) % 4,
        old(f).sound(m, old(elev_code)@, old(receiver)@),
        old(f).visited@[cell as int],
        old(f).open_min == old(elev_code)@[cell as int],
        old(f).looked_round(m, old(elev_code)@, old(receiver)@, cell as int, first, turn),
    ensures
        final(f).sound(m, final(elev_code)@, final(receiver)@),
        final(f).visits@ == old(f).visits@,
        final(f).visited@ == old(f).visited@,
        final(f).open_min == old(f).open_min,
        final(elev_code)@[cell as int] == old(elev_code)@[cell as int],
        final(f).looked_round(m, final(elev_code)@, final(receiver)@, cell as int, first, turn + 1),
        final(f).state(final(elev_code)@, final(receiver)@) == old(f).state(
            old(elev_code)@,
            old(receiver)@,
        ).looked_at(size as int, cell as int, k as int),
{
    let ghost n = m.size;
    let ghost f0 = *f;
    let ghost e0 = elev_code@;
    let ghost r0 = receiver@;
    let ghost cc = cell as int;
    proof {
        lemma_side(n);
        lemma_step(n, cc, k as int);
        assert(f.cell_state(m, e0, r0, cc));
    }
    let around: Option<usize> = neighbor(size, cell as usize, k);
    let mut closes: bool = false;
    if let Some(nb) = around {
        assert(f.cell_state(m, e0, r0, nb as int));
        if !f.closed[nb] {
            closes = true;
            let ce: u8 = elev_code[cell as usize];
            let ne: u8 = if elev_code[nb] < ce {
                ce
            } else {
                elev_code[nb]
            };
            elev_code[nb] = ne;
            receiver[nb] = cell;
            f.closed.set(nb, true);
            f.buckets[ne as usize].push(nb as i32);
            proof {
                let lw = ne as int;
                let x = nb as int;
                assert(f.buckets@ =~= f0.buckets@.update(lw, f.buckets@[lw]));
                assert(f.buckets@[lw]@ =~= f0.buckets@[lw]@.push(nb as i32));
                assert(bucket_views(f.buckets@) =~= bucket_views(f0.buckets@).update(
                    lw,
                    bucket_views(f0.buckets@)[lw].push(nb as i32),
                ));
                assert(!f0.visited@[x]);
                assert(adjacent(n, cc, x)) by {
                    assert(step(n, cc, k as int) == Some(x));
                }
                assert forall|c: int| is_cell(n, c) implies #[trigger] f.cell_state(
                    m,
                    elev_code@,
                    receiver@,
                    c,
                ) by {
                    assert(f0.cell_state(m, e0, r0, c));
                    if c == x {
                        assert(f.buckets@[lw]@[f0.buckets@[lw]@.len() as int] == c as i32);
                    } else {
                        if r0[c] >= 0 {
                            assert(f0.visited@[r0[c] as int]);
                            assert(r0[c] != x);
                        }
                        if f0.closed@[c] && !f0.visited@[c] {
                            let b = e0[c] as int;
                            let j = choose|j: int|
                                0 <= j < f0.buckets@[b]@.len() && f0.buckets@[b]@[j] == c as i32;
                            assert(f.buckets@[b]@[j] == c as i32);
                        }
                    }
                }
                assert forall|b: int| 0 <= b < 256 implies #[trigger] f.bucket_state(
                    m,
                    elev_code@,
                    b,
                ) by {
                    assert(f0.bucket_state(m, e0, b));
                    assert forall|j: int| 0 <= j < f.buckets@[b]@.len() implies {
                        &&& is_cell(n, #[trigger] f.buckets@[b]@[j] as int)
                        &&& f.closed@[f.buckets@[b]@[j] as int]
                        &&& !f.visited@[f.buckets@[b]@[j] as int]
                        &&& elev_code@[f.buckets@[b]@[j] as int] == b
                    } by {
                        if b != lw || j < f0.buckets@[lw]@.len() {
                            assert(f.buckets@[b]@[j] == f0.buckets@[b]@[j]);
                        }
                    }
                    assert forall|s: int, t: int|
                        0 <= s < f.buckets@[b]@.len() && 0 <= t < f.buckets@[b]@.len() && s
                            != t implies f.buckets@[b]@[s] != f.buckets@[b]@[t] by {
                        if b == lw && s == f0.buckets@[b]@.len() {
                            assert(f0.closed@[f0.buckets@[b]@[t] as int]);
                        } else if b == lw && t == f0.buckets@[b]@.len() {
                            assert(f0.closed@[f0.buckets@[b]@[s] as int]);
                        }
                    }
                }
                assert forall|p: int| 0 <= p < f.order@.len() implies #[trigger] f.order_state(
                    m,
                    receiver@,
                    p,
                ) by {
                    assert(f0.order_state(m, r0, p));
                    assert(f.order@ == f0.order@);
                    let c = f.order@[p] as int;
                    assert(c != x);
                    assert(receiver@[c] == r0[c]);
                    if !wet(m.cells, r0[c] as int) {
                        let q = choose|q: int| 0 <= q < p && #[trigger] f0.order@[q] == r0[c];
                        assert(f.order@[q] == receiver@[c]);
                    }
                }
            }
        }
    }
    proof {
        assert forall|y: int, k2: int|
            is_cell(n, y) && 0 <= k2 < 4 && (y != cc || side_turn(first, k2) < turn + 1) implies #[trigger] f.looked(
        m, elev_code@, receiver@, y, k2) by {
            assert(f0.cell_state(m, e0, r0, y));
            lemma_step(n, y, k2);
            if f.visited@[y] && step(n, y, k2) is Some {
                let c = step(n, y, k2)->0;
                assert(f0.cell_state(m, e0, r0, c));
                if y == cc && k2 == k {
                    if f0.closed@[c] && r0[c] >= 0 {
                        assert(f0.cell_state(m, e0, r0, r0[c] as int)) by {
                            assert(f0.visited@[r0[c] as int]);
                        }
                    }
                } else {
                    assert(y != cc || side_turn(first, k2) < turn) by {
                        if y == cc {
                            lemma_side_turn(first, turn, k2, k as int);
                        }
                    }
                    assert(f0.looked(m, e0, r0, y, k2));
                    if r0[c] >= 0 {
                        assert(f0.visited@[r0[c] as int]);
                    }
                }
            }
        }
    }
}

proof fn lemma_side_turn(first: int, turn: int, k: int, at: int)
    requires
        0 <= first < 4,
        0 <= turn < 4,
        0 <= k < 4,
        at == (first + turn) % 4,
        k != at,
        side_turn(first, k) < turn + 1,
    ensures
        side_turn(first, k) < turn,
{
}

proof fn lemma_lowest(buckets: Seq<Seq<i32>>, from: int, at: int)
    requires
        0 <= from <= at <= 256,
        forall|b: int| from <= b < at ==> (#[trigger] buckets[b]).len() == 0,
        at < 256 ==> buckets[at].len() > 0,
    ensures
        lowest_open(buckets, from) == at,
    decreases at - from,
{
    if from < at {
        assert(buckets[from].len() == 0);
        lemma_lowest(buckets, from + 1, at);
    }
}

/// Visits the lowest closed cell that was not visited yet. `None` when there is
/// none left.
fn flood_next(
    size: usize,
    cells: &[i32],
    elev_code: &[u8],
    receiver: &[i32],
    f: &mut Flood,
    Ghost(m): Ghost<Basin>,
) -> (r: Option<i32>)
    requires
        m.size == size,
        m.cells == cells@,
        old(f).sound(m, elev_code@, receiver@),
        old(f).looked_round(m, elev_code@, receiver@, -1, 0, 0),
    ensures
        final(f).sound(m, elev_code@, receiver@),
        match r {
            Some(cell) => {
                &&& is_cell(size as int, cell as int)
                &&& final(f).visited@[cell as int]
                &&& final(f).open_min == elev_code@[cell as int]
                &&& final(f).visits@.len() == old(f).visits@.len() + 1
                &&& final(f).visits@.len() <= size * size
                &&& forall|first: int|
                    0 <= first < 4 ==> #[trigger] final(f).looked_round(
                        m,
                        elev_code@,
                        receiver@,
                        cell as int,
                        first,
                        0,
                    )
                &&& old(f).state(elev_code@, receiver@).next_level() < 256
                &&& cell == old(f).state(elev_code@, receiver@).next_cell()
                &&& final(f).state(elev_code@, receiver@) == old(f).state(
                    elev_code@,
                    receiver@,
                ).taken(cells@)
            },
            None => {
                &&& old(f).state(elev_code@, receiver@).next_level() >= 256
                &&& final(f).state(elev_code@, receiver@) == old(f).state(elev_code@, receiver@)
                &&& final(f).looked_round(m, elev_code@, receiver@, -1, 0, 0)
                &&& final(f).visits@ == old(f).visits@
                &&& forall|c: int|
                    is_cell(size as int, c) && #[trigger] final(f).closed@[c] ==> final(f).visited@[c]
            },
        },
{
    let ghost n = m.size;
    let ghost elev = elev_code@;
    let ghost rec = receiver@;
    proof {
        lemma_side(n);
    }
    while f.open_min < 256 && f.buckets[f.open_min].len() == 0
        invariant
            n == m.size,
            f.sound(m, elev, rec),
            f.looked_round(m, elev, rec, -1, 0, 0),
            f.visits@ == old(f).visits@,
            f.buckets@ == old(f).buckets@,
            f.closed@ == old(f).closed@,
            f.order@ == old(f).order@,
        decreases 256 - f.open_min,
    {
        let ghost f1 = *f;
        f.open_min = f.open_min + 1;
        proof {
            assert forall|c: int| is_cell(n, c) implies #[trigger] f.cell_state(m, elev, rec, c) by {
                assert(f1.cell_state(m, elev, rec, c));
            }
            assert forall|b: int| 0 <= b < 256 implies #[trigger] f.bucket_state(m, elev, b) by {
                assert(f1.bucket_state(m, elev, b));
            }
            assert forall|p: int| 0 <= p < f.order@.len() implies #[trigger] f.order_state(
                m,
                rec,
                p,
            ) by {
                assert(f1.order_state(m, rec, p));
            }
            assert forall|y: int, k: int|
                is_cell(n, y) && 0 <= k < 4 && y != -1 implies #[trigger] f.looked(
                m,
                elev,
                rec,
                y,
                k,
            ) by {
                assert(f1.looked(m, elev, rec, y, k));
            }
        }
    }
    proof {
        let views = bucket_views(f.buckets@);
        assert forall|b: int| 0 <= b < f.open_min implies (#[trigger] views[b]).len() == 0 by {
            assert(f.bucket_state(m, elev, b));
            if views[b].len() > 0 {
                let c = f.buckets@[b]@[0] as int;
                assert(is_cell(n, c));
                assert(f.cell_state(m, elev, rec, c));
            }
        }
        lemma_lowest(views, 0, f.open_min as int);
    }
    if f.open_min >= 256 {
        proof {
            assert forall|c: int| is_cell(n, c) && #[trigger] f.closed@[c] implies f.visited@[c] by {
                assert(f.cell_state(m, elev, rec, c));
            }
        }
        return None;
    }
    let ghost f1 = *f;
    let ghost lv = f.open_min as int;
    let ghost last = f.buckets@[lv]@.len() - 1;
    assert(f.bucket_state(m, elev, lv));
    let level: usize = f.open_min;
    let cell: i32 = f.buckets[level].pop().unwrap();
    let ghost cc = cell as int;
    proof {
        assert(f1.buckets@[lv]@[last] == cell);
        assert(f1.cell_state(m, elev, rec, cc));
        assert(f.buckets@ =~= f1.buckets@.update(lv, f.buckets@[lv]));
        assert(f.buckets@[lv]@ =~= f1.buckets@[lv]@.drop_last());
        assert(bucket_views(f.buckets@) =~= bucket_views(f1.buckets@).update(
            lv,
            bucket_views(f1.buckets@)[lv].drop_last(),
        ));
        f.visited@ = f.visited@.update(cc, true);
        f.visits@ = f.visits@.push(cell);
    }
    assert(cell_valid(cells@[cc]));
    let here: Biome = biome(cells[cell as usize]);
    if here != Biome::Ocean && here != Biome::Lake {
        f.order.push(cell as usize);
    }
    proof {
        let v = f.visits@;
        let v1 = f1.visits@;
        assert forall|a: int, b: int|
            0 <= a < v.len() && 0 <= b < v.len() && a != b implies v[a] != v[b] by {
            if a == v1.len() {
                assert(v1.contains(v1[b]));
            } else if b == v1.len() {
                assert(v1.contains(v1[a]));
            }
        }
        assert forall|i: int| 0 <= i < v.len() implies is_cell(n, #[trigger] v[i] as int) by {
            if i < v1.len() {
                assert(is_cell(n, v1[i] as int));
            }
        }
        lemma_distinct_len(v, n * n);
        let o = f.order@;
        let o1 = f1.order@;
        assert forall|a: int, b: int|
            0 <= a < o.len() && 0 <= b < o.len() && a != b implies o[a] != o[b] by {
            if a < o1.len() {
                assert(f1.order_state(m, rec, a));
            }
            if b < o1.len() {
                assert(f1.order_state(m, rec, b));
            }
        }
        assert forall|c: int| is_cell(n, c) implies #[trigger] f.cell_state(m, elev, rec, c) by {
            assert(f1.cell_state(m, elev, rec, c));
            if v1.contains(c as i32) {
                let j = choose|j: int| 0 <= j < v1.len() && v1[j] == c as i32;
                assert(v[j] == c as i32);
            }
            if c == cc {
                assert(v[v1.len() as int] == c as i32);
                if !wet(m.cells, c) {
                    assert(o[o1.len() as int] == c as usize);
                }
            } else {
                if v.contains(c as i32) {
                    let j = choose|j: int| 0 <= j < v.len() && v[j] == c as i32;
                    assert(v1[j] == c as i32);
                }
                if f1.visited@[c] && !wet(m.cells, c) {
                    let j = choose|j: int| 0 <= j < o1.len() && o1[j] == c as usize;
                    assert(o[j] == c as usize);
                }
                if f1.closed@[c] && !f1.visited@[c] {
                    let b = elev[c] as int;
                    let j = choose|j: int|
                        0 <= j < f1.buckets@[b]@.len() && f1.buckets@[b]@[j] == c as i32;
                    assert(f.buckets@[b]@[j] == c as i32);
                }
            }
        }
        assert forall|b: int| 0 <= b < 256 implies #[trigger] f.bucket_state(m, elev, b) by {
            assert(f1.bucket_state(m, elev, b));
            assert forall|j: int| 0 <= j < f.buckets@[b]@.len() implies {
                &&& is_cell(n, #[trigger] f.buckets@[b]@[j] as int)
                &&& f.closed@[f.buckets@[b]@[j] as int]
                &&& !f.visited@[f.buckets@[b]@[j] as int]
                &&& elev[f.buckets@[b]@[j] as int] == b
            } by {
                assert(f.buckets@[b]@[j] == f1.buckets@[b]@[j]);
                if b == lv {
                    assert(f1.buckets@[b]@[j] != f1.buckets@[b]@[last]);
                }
            }
        }
        assert forall|p: int| 0 <= p < o.len() implies #[trigger] f.order_state(m, rec, p) by {
            if p < o1.len() {
                assert(f1.order_state(m, rec, p));
                let c = o1[p] as int;
                if !wet(m.cells, rec[c] as int) {
                    let q = choose|q: int| 0 <= q < p && #[trigger] o1[q] == rec[c];
                    assert(o[q] == rec[c]);
                }
            } else {
                let r = rec[cc] as int;
                assert(f1.visited@[r]);
                if !wet(m.cells, r) {
                    assert(f1.cell_state(m, elev, rec, r));
                    let q = choose|q: int| 0 <= q < o1.len() && o1[q] == r as usize;
                    assert(o[q] == rec[cc]);
                }
            }
        }
        assert forall|first: int| 0 <= first < 4 implies #[trigger] f.looked_round(
            m,
            elev,
            rec,
            cc,
            first,
            0,
        ) by {
            assert forall|y: int, k: int|
                is_cell(n, y) && 0 <= k < 4 && (y != cc || side_turn(first, k) < 0) implies #[trigger] f.looked(
            m, elev, rec, y, k) by {
                assert(f1.looked(m, elev, rec, y, k));
            }
        }
    }
    Some(cell)
}

/// Drains the land to the sea and the lakes: floods inland from all water at
/// once, lowest level first, raising hollows to the level at which they spill.
/// Returns the draining cells, each after its receiver.
pub fn priority_flood_fill(
    world_seed: i32,
    size: usize,
    cells: &[i32],
    elev_code: &mut [u8],
    lake_id: &[i32],
    lakes: &[Lake],
    receiver: &mut [i32],
) -> (flood_order: Vec<usize>)
    requires
        side_ok(size as int),
        water_known(size as int, cells@, lake_id@, lakes@),
        old(elev_code)@.len() == size * size,
        old(receiver)@.len() == size * size,
        forall|c: int| is_cell(size as int, c) ==> #[trigger] old(receiver)@[c] == -1,
    ensures
        final(elev_code)@.len() == size * size,
        final(receiver)@.len() == size * size,
        forall|c: int|
            is_cell(size as int, c) ==> #[trigger] drained_cell(
                size as int,
                cells@,
                old(elev_code)@,
                lake_id@,
                lakes@,
                final(elev_code)@,
                final(receiver)@,
                c,
            ),
        forall|y: int, c: int|
            is_cell(size as int, y) && is_cell(size as int, c) ==> #[trigger] receiver_lowest(
                size as int,
                final(elev_code)@,
                final(receiver)@,
                y,
                c,
            ),
        drains_in_order(size as int, cells@, final(receiver)@, flood_order@),
        forall|y: int, c: int|
            #![trigger adjacent(size as int, y, c)]
            is_cell(size as int, y) && is_cell(size as int, c) && adjacent(size as int, y, c) && (
            wet(cells@, y) || final(receiver)@[y] >= 0) && !wet(cells@, c) ==> final(receiver)@[c]
                >= 0,
        ({
            let s = flooded(
                world_seed,
                size as int,
                cells@,
                old(elev_code)@,
                lake_id@,
                lakes@,
            );
            &&& final(receiver)@ == s.receiver
            &&& final(elev_code)@ == s.elev
            &&& flood_order@ == s.order
        }),
{
    let ghost n = size as int;
    let ghost m = Basin {
        size: n,
        cells: cells@,
        elev0: elev_code@,
        lake_id: lake_id@,
        lakes: lakes@,
    };
    let mut f: Flood = flood_from_water(size, cells, elev_code, lake_id, lakes, receiver);
    proof {
        lemma_side(n);
        assert forall|y: int, k: int|
            is_cell(n, y) && 0 <= k < 4 && y != -1 implies #[trigger] f.looked(
            m,
            elev_code@,
            receiver@,
            y,
            k,
        ) by {
            assert(!f.visited@[y]);
        }
    }
    let ghost goal = flooded(world_seed, n, cells@, m.elev0, lake_id@, lakes@);
    let mut left: bool = true;
    while left
        invariant
            n == size,
            m.size == n,
            goal == f.state(elev_code@, receiver@).run_on(
                world_seed,
                n,
                cells@,
                (n * n - f.visits@.len()) as nat,
            ),
            !left ==> goal == f.state(elev_code@, receiver@),
            side_ok(n),
            m.cells == cells@,
            f.sound(m, elev_code@, receiver@),
            f.looked_round(m, elev_code@, receiver@, -1, 0, 0),
            f.visits@.len() <= n * n,
            !left ==> forall|c: int| is_cell(n, c) && #[trigger] f.closed@[c] ==> f.visited@[c],
        decreases n * n - f.visits@.len(), left as int,
    {
        match flood_next(size, cells, elev_code, receiver, &mut f, Ghost(m)) {
            Some(cell) => {
                proof {
                    lemma_cell_coords(n, cell as int);
                }
                let ax: i32 = cell % size as i32;
                let az: i32 = cell / size as i32;
                let first: usize = first_side(world_seed, ax, az);
                let ghost visits = f.visits@;
                let ghost cc = cell as int;
                let ghost taken = f.state(elev_code@, receiver@);
                assert(first == first_side_of(world_seed, n, cc));
                assert(f.looked_round(m, elev_code@, receiver@, cc, first as int, 0));
                let mut turn: usize = 0;
                while turn < 4
                    invariant
                        turn <= 4,
                        first < 4,
                        n == size,
                        m.size == n,
                        cc == cell,
                        is_cell(n, cc),
                        f.sound(m, elev_code@, receiver@),
                        f.visited@[cc],
                        f.open_min == elev_code@[cc],
                        f.visits@ == visits,
                        f.looked_round(m, elev_code@, receiver@, cc, first as int, turn as int),
                        f.state(elev_code@, receiver@) == taken.looked_about(
                            n,
                            cc,
                            first as int,
                            turn as nat,
                        ),
                    decreases 4 - turn,
                {
                    let k: usize = (first + turn) % 4;
                    flood_side(
                        size,
                        cell,
                        k,
                        elev_code,
                        receiver,
                        &mut f,
                        Ghost(m),
                        Ghost(first as int),
                        Ghost(turn as int),
                    );
                    turn += 1;
                }
                proof {
                    assert forall|y: int, k: int|
                        is_cell(n, y) && 0 <= k < 4 && y != -1 implies #[trigger] f.looked(
                        m,
                        elev_code@,
                        receiver@,
                        y,
                        k,
                    ) by {
                        assert(side_turn(first as int, k) < 4);
                    }
                }
            },
            None => {
                left = false;
            },
        }
    }
    proof {
        let elev = elev_code@;
        let rec = receiver@;
        assert forall|y: int, c: int|
            is_cell(n, y) && is_cell(n, c) implies #[trigger] receiver_lowest(n, elev, rec, y, c) by {
            if adjacent(n, y, c) && rec[c] >= 0 {
                assert(f.cell_state(m, elev, rec, c));
                assert(f.cell_state(m, elev, rec, y));
                assert(f.closed@[c]) by {
                    if wet(m.cells, c) {
                    }
                }
                lemma_adjacent_symmetric(n, y, c);
                let k = choose|k: int| 0 <= k < 4 && #[trigger] step(n, c, k) == Some(y);
                assert(f.looked(m, elev, rec, c, k));
                let k2 = choose|k2: int| 0 <= k2 < 4 && #[trigger] step(n, y, k2) == Some(c);
                assert(f.looked(m, elev, rec, y, k2));
            }
        }
        assert forall|y: int, c: int|
            #![trigger adjacent(n, y, c)]
            is_cell(n, y) && is_cell(n, c) && adjacent(n, y, c) && (wet(cells@, y) || rec[y] >= 0)
                && !wet(cells@, c) implies rec[c] >= 0 by {
            assert(f.cell_state(m, elev, rec, c));
            assert(f.cell_state(m, elev, rec, y));
            let k = choose|k: int| 0 <= k < 4 && #[trigger] step(n, y, k) == Some(c);
            assert(f.looked(m, elev, rec, y, k));
        }
        let order = f.order@;
        assert forall|p: int| 0 <= p < order.len() implies is_cell(n, #[trigger] order[p] as int)
            && !wet(cells@, order[p] as int) && rec[order[p] as int] >= 0 by {
            assert(f.order_state(m, rec, p));
            assert(f.cell_state(m, elev, rec, order[p] as int));
        }
        assert forall|c: int| is_cell(n, c) && #[trigger] rec[c] >= 0 implies order.contains(
            c as usize,
        ) by {
            assert(f.cell_state(m, elev, rec, c));
        }
        assert forall|p: int| #![trigger order[p]] 0 <= p < order.len() implies wet(
            cells@,
            rec[order[p] as int] as int,
        ) || exists|q: int| 0 <= q < p && #[trigger] order[q] == rec[order[p] as int] by {
            assert(f.order_state(m, rec, p));
        }
        assert forall|c: int| is_cell(n, c) implies #[trigger] drained_cell(
            n,
            cells@,
            m.elev0,
            lake_id@,
            lakes@,
            elev,
            rec,
            c,
        ) by {
            assert(f.cell_state(m, elev, rec, c));
        }
    }
    f.order
}


/// A river never climbs: the receiver of a draining cell lies no higher.
pub proof fn law_river_never_climbs(
    size: int,
    cells: Seq<i32>,
    elev0: Seq<u8>,
    lake_id: Seq<i32>,
    lakes: Seq<Lake>,
    elev: Seq<u8>,
    receiver: Seq<i32>,
    c: int,
)
    requires
        drained_cell(size, cells, elev0, lake_id, lakes, elev, receiver, c),
        receiver[c] >= 0,
    ensures
        elev[receiver[c] as int] <= elev[c],
        elev0[c] <= elev[c],
{
}

/// The chain of receivers from `c` on.
pub open spec fn follows(receiver: Seq<i32>, p: Seq<int>) -> bool {
    &&& p.len() > 0
    &&& forall|i: int|
        0 <= i < p.len() - 1 ==> 0 <= #[trigger] p[i] < receiver.len() && p[i + 1] == receiver[p[i]]
}

/// Every river ends in the sea or a lake: the receivers of a draining cell lead
/// to water.
pub proof fn law_river_reaches_water(
    size: int,
    cells: Seq<i32>,
    receiver: Seq<i32>,
    order: Seq<usize>,
    c: int,
)
    requires
        side_ok(size),
        drains_in_order(size, cells, receiver, order),
        receiver.len() == size * size,
        is_cell(size, c),
        receiver[c] >= 0,
    ensures
        exists|p: Seq<int>| #[trigger] follows(receiver, p) && p[0] == c && wet(cells, p.last()),
{
    lemma_side(size);
    let at = choose|at: int| 0 <= at < order.len() && order[at] == c as usize;
    lemma_chain_from(size, cells, receiver, order, at);
}

proof fn lemma_chain_from(
    size: int,
    cells: Seq<i32>,
    receiver: Seq<i32>,
    order: Seq<usize>,
    at: int,
)
    requires
        drains_in_order(size, cells, receiver, order),
        receiver.len() == size * size,
        0 <= at < order.len(),
    ensures
        exists|p: Seq<int>| #[trigger]
            follows(receiver, p) && p[0] == order[at] && wet(cells, p.last()),
    decreases at,
{
    let c = order[at] as int;
    let r = receiver[c] as int;
    assert(is_cell(size, c));
    if wet(cells, r) {
        let p = seq![c, r];
        assert(follows(receiver, p));
        assert(p[0] == c && p.last() == r);
    } else {
        let q = choose|q: int| 0 <= q < at && #[trigger] order[q] == receiver[order[at] as int];
        lemma_chain_from(size, cells, receiver, order, q);
        let tail = choose|p: Seq<int>| #[trigger]
            follows(receiver, p) && p[0] == order[q] && wet(cells, p.last());
        let p = seq![c] + tail;
        assert forall|i: int| 0 <= i < p.len() - 1 implies 0 <= #[trigger] p[i] < receiver.len()
            && p[i + 1] == receiver[p[i]] by {
            if i > 0 {
                assert(p[i] == tail[i - 1] && p[i + 1] == tail[i - 1 + 1]);
            } else {
                assert(p[1] == tail[0]);
            }
        }
        assert(follows(receiver, p));
        assert(p[0] == c && p.last() == tail.last());
    }
}

/// The level of a cell before draining: the water's in sea and lakes, else the
/// ground's.
pub open spec fn level_before(
    cells: Seq<i32>,
    elev0: Seq<u8>,
    lake_id: Seq<i32>,
    lakes: Seq<Lake>,
    c: int,
) -> int {
    if wet(cells, c) {
        water_level(cells, elev0, lake_id, lakes, c)
    } else {
        elev0[c] as int
    }
}

/// Draining raises no cell above what a way out needs: along any way from water
/// to a draining cell, the cell ends no higher than the highest point passed.
pub proof fn law_drained_to_lowest_spill(
    size: int,
    cells: Seq<i32>,
    elev0: Seq<u8>,
    lake_id: Seq<i32>,
    lakes: Seq<Lake>,
    elev: Seq<u8>,
    receiver: Seq<i32>,
    p: Seq<int>,
    top: int,
)
    requires
        side_ok(size),
        p.len() > 0,
        wet(cells, p[0]),
        forall|i: int|
            0 <= i < p.len() ==> is_cell(size, #[trigger] p[i]) && level_before(
                cells,
                elev0,
                lake_id,
                lakes,
                p[i],
            ) <= top && (!wet(cells, p[i]) ==> receiver[p[i]] >= 0),
        forall|i: int| 0 < i < p.len() ==> adjacent(size, p[i - 1], #[trigger] p[i]),
        forall|c: int|
            is_cell(size, c) ==> #[trigger] drained_cell(
                size,
                cells,
                elev0,
                lake_id,
                lakes,
                elev,
                receiver,
                c,
            ),
        forall|y: int, c: int|
            is_cell(size, y) && is_cell(size, c) ==> #[trigger] receiver_lowest(
                size,
                elev,
                receiver,
                y,
                c,
            ),
    ensures
        elev[p.last()] <= top,
    decreases p.len(),
{
    let c = p.last();
    assert(c == p[p.len() - 1]);
    assert(drained_cell(size, cells, elev0, lake_id, lakes, elev, receiver, c));
    if p.len() > 1 && !wet(cells, c) {
        let q = p.drop_last();
        assert forall|i: int| 0 < i < q.len() implies adjacent(size, q[i - 1], #[trigger] q[i]) by {
            assert(adjacent(size, p[i - 1], p[i]));
        }
        assert forall|i: int| 0 <= i < q.len() implies is_cell(size, #[trigger] q[i])
            && level_before(cells, elev0, lake_id, lakes, q[i]) <= top && (!wet(cells, q[i])
            ==> receiver[q[i]] >= 0) by {
            assert(q[i] == p[i]);
        }
        law_drained_to_lowest_spill(
            size,
            cells,
            elev0,
            lake_id,
            lakes,
            elev,
            receiver,
            q,
            top,
        );
        let y = q.last();
        assert(y == p[p.len() - 2]);
        assert(adjacent(size, p[p.len() - 2], p[p.len() - 1]));
        assert(is_cell(size, y));
        assert(receiver_lowest(size, elev, receiver, y, c));
        assert(level_before(cells, elev0, lake_id, lakes, c) <= top);
    } else {
        assert(wet(cells, c)) by {
            if p.len() == 1 {
                assert(c == p[0]);
            }
        }
        assert(level_before(cells, elev0, lake_id, lakes, c) <= top);
    }
}

/// Where there is water at all, all land drains.
pub proof fn law_all_land_drains(
    size: int,
    cells: Seq<i32>,
    receiver: Seq<i32>,
    w: int,
    c: int,
)
    requires
        side_ok(size),
        is_cell(size, w),
        is_cell(size, c),
        wet(cells, w),
        !wet(cells, c),
        forall|y: int, d: int|
            #![trigger adjacent(size, y, d)]
            is_cell(size, y) && is_cell(size, d) && adjacent(size, y, d) && (wet(cells, y)
                || receiver[y] >= 0) && !wet(cells, d) ==> receiver[d] >= 0,
    ensures
        receiver[c] >= 0,
{
    let all = Seq::new((size * size) as nat, |i: int| true);
    lemma_grid_joined(size, w, c);
    let held = |x: int| wet(cells, x) || receiver[x] >= 0;
    assert forall|x: int, y: int|
        #![trigger adjacent(size, x, y)]
        is_cell(size, x) && is_cell(size, y) && all[x] && all[y] && held(x) && adjacent(
            size,
            x,
            y,
        ) implies held(y) by {
    }
    lemma_joined_induction(size, all, w, c, held);
}

/// The area that drains into `c` from the cells of `order` from `from` on.
pub open spec fn inflow_area(
    order: Seq<usize>,
    receiver: Seq<i32>,
    area: Seq<u32>,
    c: int,
    from: int,
) -> int
    decreases order.len() - from,
{
    if from < 0 || from >= order.len() {
        0
    } else {
        (if receiver[order[from] as int] == c {
            area[order[from] as int] as int
        } else {
            0
        }) + inflow_area(order, receiver, area, c, from + 1)
    }
}

spec fn prefix_area(order: Seq<usize>, area: Seq<u32>, p: nat) -> int
    decreases p,
{
    if p == 0 {
        0
    } else {
        prefix_area(order, area, (p - 1) as nat) + area[order[p - 1] as int]
    }
}

proof fn lemma_prefix_bounds(order: Seq<usize>, area: Seq<u32>, p: nat, q: int)
    requires
        0 <= q < p <= order.len(),
        forall|i: int| 0 <= i < order.len() ==> 0 <= #[trigger] order[i] < area.len(),
    ensures
        area[order[q] as int] <= prefix_area(order, area, p),
        0 <= prefix_area(order, area, p),
    decreases p,
{
    reveal_with_fuel(prefix_area, 2);
    assert(order[q] < area.len());
    assert(order[p - 1] < area.len());
    if q < p - 1 {
        lemma_prefix_bounds(order, area, (p - 1) as nat, q);
    } else if p > 1 {
        lemma_prefix_bounds(order, area, (p - 1) as nat, 0);
    }
}

proof fn lemma_prefix_update(
    order: Seq<usize>,
    area: Seq<u32>,
    p: nat,
    q: int,
    v: u32,
)
    requires
        order.no_duplicates(),
        0 <= q < order.len(),
        p <= order.len(),
        forall|i: int| 0 <= i < order.len() ==> 0 <= #[trigger] order[i] < area.len(),
    ensures
        prefix_area(order, area.update(order[q] as int, v), p) == prefix_area(order, area, p) + (
        if q < p {
            v - area[order[q] as int]
        } else {
            0
        }),
    decreases p,
{
    if p > 0 {
        lemma_prefix_update(order, area, (p - 1) as nat, q, v);
        assert(0 <= order[p - 1] < area.len());
        if q != p - 1 {
            assert(order[p - 1] != order[q]);
        }
    }
}

proof fn lemma_inflow_update(
    order: Seq<usize>,
    receiver: Seq<i32>,
    area: Seq<u32>,
    c: int,
    from: int,
    at: int,
    v: u32,
)
    requires
        0 <= from <= order.len(),
        0 <= at < area.len(),
        forall|i: int| from <= i < order.len() ==> 0 <= #[trigger] order[i] < area.len() && order[i]
            != at,
    ensures
        inflow_area(order, receiver, area.update(at, v), c, from) == inflow_area(
            order,
            receiver,
            area,
            c,
            from,
        ),
    decreases order.len() - from,
{
    if from < order.len() {
        lemma_inflow_update(order, receiver, area, c, from + 1, at, v);
        assert(order[from] != at);
    }
}

proof fn lemma_inflow_nonneg(
    order: Seq<usize>,
    receiver: Seq<i32>,
    area: Seq<u32>,
    c: int,
    from: int,
    at: int,
)
    requires
        0 <= from,
    ensures
        0 <= inflow_area(order, receiver, area, c, from),
        from <= at < order.len() && receiver[order[at] as int] == c ==> area[order[at] as int]
            <= inflow_area(order, receiver, area, c, from),
    decreases order.len() - from,
{
    if from < order.len() {
        lemma_inflow_nonneg(order, receiver, area, c, from + 1, at);
    }
}

/// The drained area of every cell, itself counted: one, and on land the areas of
/// the cells that drain into it.
pub open spec fn areas_drained(
    size: int,
    cells: Seq<i32>,
    receiver: Seq<i32>,
    order: Seq<usize>,
    area: Seq<u32>,
) -> bool {
    &&& area.len() == size * size
    &&& forall|c: int|
        is_cell(size, c) ==> #[trigger] area[c] == 1 + (if wet(cells, c) {
            0
        } else {
            inflow_area(order, receiver, area, c, 0)
        })
}

/// Adds up the area that drains through each cell.
pub fn drain_areas(size: usize, cells: &[i32], receiver: &[i32], order: &Vec<usize>) -> (area: Vec<
    u32,
>)
    requires
        side_ok(size as int),
        cells@.len() == size * size,
        receiver@.len() == size * size,
        forall|c: int| is_cell(size as int, c) ==> cell_valid(#[trigger] cells@[c]),
        forall|c: int| is_cell(size as int, c) ==> #[trigger] receiver@[c] < size * size,
        drains_in_order(size as int, cells@, receiver@, order@),
    ensures
        areas_drained(size as int, cells@, receiver@, order@, area@),
        forall|c: int| is_cell(size as int, c) ==> 1 <= #[trigger] area@[c],
{
    let ghost n = size as int;
    proof {
        lemma_side(n);
    }
    let count: usize = size * size;
    let mut area: Vec<u32> = vec![1u32; count];
    let mut p: usize = order.len();
    proof {
        lemma_ones(order@, area@, order@.len());
        lemma_order_len(n, order@);
    }
    while p > 0
        invariant
            p <= order@.len(),
            n == size,
            side_ok(n),
            n * n <= 2147395600,
            order@.len() <= n * n,
            cells@.len() == n * n,
            receiver@.len() == n * n,
            area@.len() == n * n,
            drains_in_order(n, cells@, receiver@, order@),
            forall|c: int| is_cell(n, c) ==> cell_valid(#[trigger] cells@[c]),
            forall|c: int| is_cell(n, c) ==> #[trigger] receiver@[c] < n * n,
            prefix_area(order@, area@, p as nat) <= order@.len(),
            forall|c: int|
                is_cell(n, c) ==> #[trigger] area@[c] == 1 + (if wet(cells@, c) {
                    0
                } else {
                    inflow_area(order@, receiver@, area@, c, p as int)
                }),
        decreases p,
    {
        p -= 1;
        let idx: usize = order[p];
        assert(is_cell(n, order@[p as int] as int));
        let down: i32 = receiver[idx];
        assert(receiver@[idx as int] < n * n);
        assert(cell_valid(cells@[down as int]));
        let ghost area_b = area@;
        let there: Biome = biome(cells[down as usize]);
        proof {
            assert forall|i: int| 0 <= i < order@.len() implies 0 <= #[trigger] order@[i]
                < area@.len() by {
                assert(is_cell(n, order@[i] as int));
            }
            lemma_prefix_bounds(order@, area@, (p + 1) as nat, p as int);
        }
        if there != Biome::Ocean && there != Biome::Lake {
            let ghost q = choose|q: int|
                0 <= q < p && #[trigger] order@[q] == receiver@[order@[p as int] as int];
            proof {
                assert(!wet(cells@, down as int));
                assert(order@[q] == down);
                lemma_prefix_bounds(order@, area@, p as nat, q);
                assert(area@[down as int] + area@[idx as int] <= prefix_area(
                    order@,
                    area@,
                    (p + 1) as nat,
                ));
            }
            let sum: u32 = area[down as usize] + area[idx];
            area.set(down as usize, sum);
            proof {
                lemma_prefix_update(order@, area_b, p as nat, q, sum);
                assert forall|i: int| p <= i < order@.len() implies 0 <= #[trigger] order@[i]
                    < area_b.len() && order@[i] != down by {
                    assert(order@[i] != order@[q]);
                }
                assert forall|c: int| is_cell(n, c) implies #[trigger] area@[c] == 1 + (if wet(
                    cells@,
                    c,
                ) {
                    0
                } else {
                    inflow_area(order@, receiver@, area@, c, p as int)
                }) by {
                    assert(area_b[c] == 1 + (if wet(cells@, c) {
                        0
                    } else {
                        inflow_area(order@, receiver@, area_b, c, p + 1)
                    }));
                    lemma_inflow_update(
                        order@,
                        receiver@,
                        area_b,
                        c,
                        p + 1,
                        down as int,
                        sum,
                    );
                    assert(area@[idx as int] == area_b[idx as int]) by {
                        assert(order@[p as int] != down);
                    }
                }
            }
        } else {
            proof {
                assert(wet(cells@, down as int));
            }
        }
    }
    proof {
        assert forall|c: int| is_cell(n, c) implies 1 <= #[trigger] area@[c] by {
            lemma_inflow_nonneg(order@, receiver@, area@, c, 0, 0);
        }
    }
    area
}

proof fn lemma_ones(order: Seq<usize>, area: Seq<u32>, p: nat)
    requires
        p <= order.len(),
        forall|i: int| 0 <= i < order.len() ==> 0 <= #[trigger] order[i] < area.len(),
        forall|c: int| 0 <= c < area.len() ==> #[trigger] area[c] == 1,
    ensures
        prefix_area(order, area, p) == p,
    decreases p,
{
    if p > 0 {
        lemma_ones(order, area, (p - 1) as nat);
        assert(0 <= order[p - 1] < area.len());
        assert(area[order[p - 1] as int] == 1);
    }
}

proof fn lemma_order_len(size: int, order: Seq<usize>)
    requires
        side_ok(size),
        order.no_duplicates(),
        forall|p: int| 0 <= p < order.len() ==> is_cell(size, #[trigger] order[p] as int),
    ensures
        order.len() <= size * size,
{
    lemma_side(size);
    let t = order.map_values(|x: usize| x as i32);
    assert forall|i: int, j: int| 0 <= i < t.len() && 0 <= j < t.len() && i != j implies t[i]
        != t[j] by {
        assert(is_cell(size, order[i] as int));
        assert(is_cell(size, order[j] as int));
        assert(order[i] != order[j]);
    }
    assert forall|i: int| 0 <= i < t.len() implies 0 <= #[trigger] t[i] < size * size by {
        assert(is_cell(size, order[i] as int));
    }
    lemma_distinct_len(t, size * size);
}

/// A receiver on land drains more than the cell that drains into it, so that a
/// river only grows on its way.
pub proof fn law_rivers_grow_downstream(
    size: int,
    cells: Seq<i32>,
    receiver: Seq<i32>,
    order: Seq<usize>,
    area: Seq<u32>,
    c: int,
)
    requires
        side_ok(size),
        areas_drained(size, cells, receiver, order, area),
        drains_in_order(size, cells, receiver, order),
        is_cell(size, c),
        receiver[c] >= 0,
        is_cell(size, receiver[c] as int),
        !wet(cells, receiver[c] as int),
    ensures
        area[c] < area[receiver[c] as int],
{
    lemma_side(size);
    let at = choose|at: int| 0 <= at < order.len() && order[at] == c as usize;
    lemma_inflow_nonneg(order, receiver, area, receiver[c] as int, 0, at);
    assert(area[receiver[c] as int] == 1 + inflow_area(
        order,
        receiver,
        area,
        receiver[c] as int,
        0,
    ));
}

proof fn lemma_inflow_same(
    order: Seq<usize>,
    receiver: Seq<i32>,
    a: Seq<u32>,
    b: Seq<u32>,
    c: int,
    from: int,
)
    requires
        0 <= from,
        forall|p: int|
            from <= p < order.len() ==> a[#[trigger] order[p] as int] == b[order[p] as int],
    ensures
        inflow_area(order, receiver, a, c, from) == inflow_area(order, receiver, b, c, from),
    decreases order.len() - from,
{
    if from < order.len() {
        lemma_inflow_same(order, receiver, a, b, c, from + 1);
        assert(a[order[from] as int] == b[order[from] as int]);
    }
}

proof fn lemma_inflow_later(
    order: Seq<usize>,
    receiver: Seq<i32>,
    area: Seq<u32>,
    c: int,
    from: int,
    to: int,
)
    requires
        0 <= from <= to <= order.len(),
        forall|p: int| from <= p < to ==> receiver[#[trigger] order[p] as int] != c,
    ensures
        inflow_area(order, receiver, area, c, from) == inflow_area(order, receiver, area, c, to),
    decreases to - from,
{
    if from < to {
        lemma_inflow_later(order, receiver, area, c, from + 1, to);
        assert(receiver[order[from] as int] != c);
    }
}

proof fn lemma_areas_agree(
    size: int,
    cells: Seq<i32>,
    receiver: Seq<i32>,
    order: Seq<usize>,
    a: Seq<u32>,
    b: Seq<u32>,
    k: int,
)
    requires
        areas_drained(size, cells, receiver, order, a),
        areas_drained(size, cells, receiver, order, b),
        drains_in_order(size, cells, receiver, order),
        0 <= k <= order.len(),
    ensures
        forall|p: int|
            k <= p < order.len() ==> a[#[trigger] order[p] as int] == b[order[p] as int],
    decreases order.len() - k,
{
    if k < order.len() {
        lemma_areas_agree(size, cells, receiver, order, a, b, k + 1);
        let c = order[k] as int;
        assert forall|p: int| 0 <= p < k + 1 implies receiver[#[trigger] order[p] as int] != c by {
            if receiver[order[p] as int] == c {
                assert(!wet(cells, order[k] as int));
                let q = choose|q: int|
                    0 <= q < p && #[trigger] order[q] == receiver[order[p] as int];
                assert(order[q] == order[k]);
            }
        }
        lemma_inflow_later(order, receiver, a, c, 0, k + 1);
        lemma_inflow_later(order, receiver, b, c, 0, k + 1);
        lemma_inflow_same(order, receiver, a, b, c, k + 1);
        assert(is_cell(size, c) && !wet(cells, c));
        assert(a[c] == b[c]);
    }
}

/// What drains through each cell follows from where each cell drains to.
pub proof fn law_areas_are_determined(
    size: int,
    cells: Seq<i32>,
    receiver: Seq<i32>,
    order: Seq<usize>,
    a: Seq<u32>,
    b: Seq<u32>,
)
    requires
        areas_drained(size, cells, receiver, order, a),
        areas_drained(size, cells, receiver, order, b),
        drains_in_order(size, cells, receiver, order),
    ensures
        a == b,
{
    lemma_areas_agree(size, cells, receiver, order, a, b, 0);
    assert forall|c: int| 0 <= c < a.len() implies a[c] == b[c] by {
        lemma_inflow_same(order, receiver, a, b, c, 0);
        assert(is_cell(size, c));
    }
    assert(a =~= b);
}

} // verus!
