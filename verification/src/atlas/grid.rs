//! The square cell grid: neighbours, walks over marked cells, and the parts a
//! set of marked cells falls into.

use vstd::prelude::*;

verus! {

/// Grids with at least one cell whose cell numbers all fit in `i32`.
pub open spec fn side_ok(size: int) -> bool {
    1 <= size <= 46340
}

/// `c` is a cell of the grid.
pub open spec fn is_cell(size: int, c: int) -> bool {
    0 <= c < size * size
}

/// Column of a cell.
pub open spec fn cell_x(size: int, c: int) -> int {
    c % size
}

/// Row of a cell.
pub open spec fn cell_z(size: int, c: int) -> int {
    c / size
}

/// The cell at column `ax` and row `az`.
pub open spec fn cell_number(size: int, ax: int, az: int) -> int {
    az * size + ax
}

/// Whether `(ax, az)` lies on the grid.
pub open spec fn inside(size: int, ax: int, az: int) -> bool {
    0 <= ax < size && 0 <= az < size
}

/// The neighbour of `c` to the east, south, west or north (`k` from 0 to 3).
#[verifier::opaque]
pub open spec fn step(size: int, c: int, k: int) -> Option<int> {
    if k == 0 && cell_x(size, c) + 1 < size {
        Some(c + 1)
    } else if k == 1 && cell_z(size, c) + 1 < size {
        Some(c + size)
    } else if k == 2 && cell_x(size, c) > 0 {
        Some(c - 1)
    } else if k == 3 && cell_z(size, c) > 0 {
        Some(c - size)
    } else {
        None
    }
}

/// `a` and `b` share an edge.
pub open spec fn adjacent(size: int, a: int, b: int) -> bool {
    exists|k: int| 0 <= k < 4 && #[trigger] step(size, a, k) == Some(b)
}

/// A cell on the outer ring of the grid.
pub open spec fn on_border(size: int, c: int) -> bool {
    cell_x(size, c) == 0 || cell_z(size, c) == 0 || cell_x(size, c) + 1 == size || cell_z(size, c)
        + 1 == size
}

/// A sequence of marked cells, each sharing an edge with the next.
pub open spec fn walk(size: int, mask: Seq<bool>, p: Seq<int>) -> bool {
    &&& p.len() > 0
    &&& forall|i: int| 0 <= i < p.len() ==> is_cell(size, #[trigger] p[i]) && mask[p[i]]
    &&& forall|i: int| 0 <= i < p.len() - 1 ==> adjacent(size, #[trigger] p[i], p[i + 1])
}

/// A walk over marked cells leads from `a` to `b`.
pub open spec fn joined(size: int, mask: Seq<bool>, a: int, b: int) -> bool {
    exists|p: Seq<int>| #[trigger] walk(size, mask, p) && p[0] == a && p.last() == b
}

/// A marked cell next to a seen marked cell is seen.
pub open spec fn settled(size: int, mask: Seq<bool>, seen: Seq<bool>) -> bool {
    forall|a: int, k: int|
        #![trigger step(size, a, k)]
        is_cell(size, a) && 0 <= k < 4 && mask[a] && seen[a] ==> match step(size, a, k) {
            Some(b) => is_cell(size, b) && mask[b] ==> seen[b],
            None => true,
        }
}

pub proof fn lemma_cell_coords(size: int, c: int)
    requires
        size > 0,
        is_cell(size, c),
    ensures
        inside(size, cell_x(size, c), cell_z(size, c)),
        c == cell_number(size, cell_x(size, c), cell_z(size, c)),
{
    assert(0 <= c % size < size && 0 <= c / size < size && c == (c / size) * size + c % size)
        by (nonlinear_arith)
        requires
            size > 0,
            0 <= c < size * size,
    ;
}

pub proof fn lemma_coords_of_number(size: int, ax: int, az: int)
    requires
        inside(size, ax, az),
    ensures
        is_cell(size, cell_number(size, ax, az)),
        cell_x(size, cell_number(size, ax, az)) == ax,
        cell_z(size, cell_number(size, ax, az)) == az,
{
    assert(0 <= az * size + ax < size * size) by (nonlinear_arith)
        requires
            0 <= ax < size,
            0 <= az < size,
    ;
    assert((az * size + ax) % size == ax && (az * size + ax) / size == az) by {
        vstd::arithmetic::div_mod::lemma_fundamental_div_mod_converse(
            az * size + ax,
            size,
            az,
            ax,
        );
    }
}

pub proof fn lemma_side(size: int)
    requires
        side_ok(size),
    ensures
        1 <= size * size <= 2147395600,
        size <= size * size,
{
    assert(1 <= size * size <= 2147395600 && size <= size * size) by (nonlinear_arith)
        requires
            1 <= size <= 46340,
    ;
}

/// A step stays on the grid, moves, and is undone by the opposite step.
pub proof fn lemma_step(size: int, c: int, k: int)
    requires
        size > 0,
        is_cell(size, c),
        0 <= k < 4,
    ensures
        match step(size, c, k) {
            Some(n) => is_cell(size, n) && n != c && step(size, n, (k + 2) % 4) == Some(c),
            None => true,
        },
{
    reveal(step);
    lemma_cell_coords(size, c);
    let ax = cell_x(size, c);
    let az = cell_z(size, c);
    assert((az + 1) * size == az * size + size) by (nonlinear_arith);
    assert((az - 1) * size == az * size - size) by (nonlinear_arith);
    if k == 0 && ax + 1 < size {
        lemma_coords_of_number(size, ax + 1, az);
    } else if k == 1 && az + 1 < size {
        lemma_coords_of_number(size, ax, az + 1);
    } else if k == 2 && ax > 0 {
        lemma_coords_of_number(size, ax - 1, az);
    } else if k == 3 && az > 0 {
        lemma_coords_of_number(size, ax, az - 1);
    }
}

/// The step in terms of columns and rows.
pub proof fn lemma_step_coords(size: int, ax: int, az: int, k: int)
    requires
        inside(size, ax, az),
        0 <= k < 4,
    ensures
        ({
            let nx = ax + (if k == 0 { 1int } else if k == 2 { -1 } else { 0 });
            let nz = az + (if k == 1 { 1int } else if k == 3 { -1 } else { 0 });
            step(size, cell_number(size, ax, az), k) == (if inside(size, nx, nz) {
                Some(cell_number(size, nx, nz))
            } else {
                None
            })
        }),
{
    reveal(step);
    lemma_coords_of_number(size, ax, az);
    assert((az + 1) * size == az * size + size) by (nonlinear_arith);
    assert((az - 1) * size == az * size - size) by (nonlinear_arith);
}

pub proof fn lemma_adjacent_symmetric(size: int, a: int, b: int)
    requires
        size > 0,
        is_cell(size, a),
        adjacent(size, a, b),
    ensures
        adjacent(size, b, a),
        is_cell(size, b),
{
    let k = choose|k: int| 0 <= k < 4 && #[trigger] step(size, a, k) == Some(b);
    lemma_step(size, a, k);
    assert(step(size, b, (k + 2) % 4) == Some(a));
}

pub proof fn lemma_joined_self(size: int, mask: Seq<bool>, a: int)
    requires
        is_cell(size, a),
        mask[a],
    ensures
        joined(size, mask, a, a),
{
    let p = seq![a];
    assert(walk(size, mask, p));
    assert(p[0] == a && p.last() == a);
}

pub proof fn lemma_joined_step(size: int, mask: Seq<bool>, a: int, b: int, c: int)
    requires
        joined(size, mask, a, b),
        adjacent(size, b, c),
        is_cell(size, c),
        mask[c],
    ensures
        joined(size, mask, a, c),
{
    let p = choose|p: Seq<int>| #[trigger] walk(size, mask, p) && p[0] == a && p.last() == b;
    let q = p.push(c);
    assert forall|i: int| 0 <= i < q.len() - 1 implies adjacent(size, #[trigger] q[i], q[i + 1]) by {
        if i < p.len() - 1 {
            assert(q[i] == p[i] && q[i + 1] == p[i + 1]);
        } else {
            assert(q[i] == p.last());
        }
    }
    assert(walk(size, mask, q));
    assert(q[0] == a && q.last() == c);
}

/// The ends of a walk are marked cells.
pub proof fn lemma_joined_ends(size: int, mask: Seq<bool>, a: int, b: int)
    requires
        joined(size, mask, a, b),
    ensures
        is_cell(size, a),
        is_cell(size, b),
        mask[a],
        mask[b],
{
    let p = choose|p: Seq<int>| #[trigger] walk(size, mask, p) && p[0] == a && p.last() == b;
    assert(is_cell(size, p[0]));
    assert(is_cell(size, p[p.len() - 1]));
}

proof fn lemma_walk_stays(
    size: int,
    mask: Seq<bool>,
    p: Seq<int>,
    held: spec_fn(int) -> bool,
)
    requires
        walk(size, mask, p),
        held(p[0]),
        forall|x: int, y: int|
            #![trigger adjacent(size, x, y)]
            is_cell(size, x) && is_cell(size, y) && mask[x] && mask[y] && held(x) && adjacent(
                size,
                x,
                y,
            ) ==> held(y),
    ensures
        held(p.last()),
    decreases p.len(),
{
    if p.len() > 1 {
        let q = p.drop_last();
        assert forall|i: int| 0 <= i < q.len() - 1 implies adjacent(
            size,
            #[trigger] q[i],
            q[i + 1],
        ) by {
            assert(q[i] == p[i] && q[i + 1] == p[i + 1]);
        }
        assert(walk(size, mask, q));
        lemma_walk_stays(size, mask, q, held);
        assert(q.last() == p[p.len() - 2]);
        assert(adjacent(size, p[p.len() - 2], p[p.len() - 2 + 1]));
        assert(is_cell(size, p[p.len() - 2]) && is_cell(size, p[p.len() - 1]));
    }
}

/// What holds of one end and passes between marked neighbours holds of the
/// other end.
pub proof fn lemma_joined_induction(
    size: int,
    mask: Seq<bool>,
    a: int,
    b: int,
    held: spec_fn(int) -> bool,
)
    requires
        joined(size, mask, a, b),
        held(a),
        forall|x: int, y: int|
            #![trigger adjacent(size, x, y)]
            is_cell(size, x) && is_cell(size, y) && mask[x] && mask[y] && held(x) && adjacent(
                size,
                x,
                y,
            ) ==> held(y),
    ensures
        held(b),
{
    let p = choose|p: Seq<int>| #[trigger] walk(size, mask, p) && p[0] == a && p.last() == b;
    lemma_walk_stays(size, mask, p, held);
}

pub proof fn lemma_joined_symmetric(size: int, mask: Seq<bool>, a: int, b: int)
    requires
        size > 0,
        joined(size, mask, a, b),
    ensures
        joined(size, mask, b, a),
{
    lemma_joined_ends(size, mask, a, b);
    lemma_joined_self(size, mask, a);
    let held = |x: int| joined(size, mask, x, a);
    assert forall|x: int, y: int|
        #![trigger adjacent(size, x, y)]
        is_cell(size, x) && is_cell(size, y) && mask[x] && mask[y] && held(x) && adjacent(
            size,
            x,
            y,
        ) implies held(y) by {
        let p = choose|p: Seq<int>| #[trigger] walk(size, mask, p) && p[0] == x && p.last() == a;
        let q = seq![y] + p;
        lemma_adjacent_symmetric(size, x, y);
        assert forall|i: int| 0 <= i < q.len() - 1 implies adjacent(
            size,
            #[trigger] q[i],
            q[i + 1],
        ) by {
            if i > 0 {
                assert(q[i] == p[i - 1] && q[i + 1] == p[i - 1 + 1]);
            } else {
                assert(q[0] == y && q[1] == x);
            }
        }
        assert(walk(size, mask, q));
        assert(q[0] == y && q.last() == a);
    }
    lemma_joined_induction(size, mask, a, b, held);
}

pub proof fn lemma_joined_transitive(size: int, mask: Seq<bool>, a: int, b: int, c: int)
    requires
        joined(size, mask, a, b),
        joined(size, mask, b, c),
    ensures
        joined(size, mask, a, c),
{
    let held = |x: int| joined(size, mask, a, x);
    assert forall|x: int, y: int|
        #![trigger adjacent(size, x, y)]
        is_cell(size, x) && is_cell(size, y) && mask[x] && mask[y] && held(x) && adjacent(
            size,
            x,
            y,
        ) implies held(y) by {
        lemma_joined_step(size, mask, a, x, y);
    }
    lemma_joined_induction(size, mask, b, c, held);
}

/// A settled set that holds one end of a walk holds the other.
pub proof fn lemma_settled_holds(size: int, mask: Seq<bool>, seen: Seq<bool>, a: int, b: int)
    requires
        joined(size, mask, a, b),
        settled(size, mask, seen),
        seen[a],
    ensures
        seen[b],
{
    let held = |x: int| seen[x];
    assert forall|x: int, y: int|
        #![trigger adjacent(size, x, y)]
        is_cell(size, x) && is_cell(size, y) && mask[x] && mask[y] && held(x) && adjacent(
            size,
            x,
            y,
        ) implies held(y) by {
        let k = choose|k: int| 0 <= k < 4 && #[trigger] step(size, x, k) == Some(y);
        assert(step(size, x, k) == Some(y));
    }
    lemma_joined_induction(size, mask, a, b, held);
}

/// Distinct numbers below `n` are at most `n` many.
pub proof fn lemma_distinct_len(s: Seq<i32>, n: int)
    requires
        n >= 0,
        s.no_duplicates(),
        forall|i: int| 0 <= i < s.len() ==> 0 <= #[trigger] s[i] < n,
    ensures
        s.len() <= n,
{
    let t = s.map_values(|x: i32| x as int);
    assert forall|i: int, j: int| 0 <= i < t.len() && 0 <= j < t.len() && i != j implies t[i]
        != t[j] by {
        assert(s[i] != s[j]);
    }
    t.unique_seq_to_set();
    let all = vstd::set_lib::set_int_range(0, n);
    vstd::set_lib::lemma_int_range(0, n);
    assert forall|x: int| t.to_set().contains(x) implies all.contains(x) by {
        let i = choose|i: int| 0 <= i < t.len() && t[i] == x;
        assert(0 <= s[i] < n);
    }
    vstd::set_lib::lemma_len_subset(t.to_set(), all);
}

pub fn in_bounds(ax: i32, az: i32, size: usize) -> (r: bool)
    ensures
        r == inside(size as int, ax as int, az as int),
{
    ax >= 0 && az >= 0 && (ax as usize) < size && (az as usize) < size
}

/// The number of the cell at `(ax, az)`.
pub fn index_of(ax: i32, az: i32, size: usize) -> (r: usize)
    requires
        side_ok(size as int),
        inside(size as int, ax as int, az as int),
    ensures
        r == cell_number(size as int, ax as int, az as int),
        is_cell(size as int, r as int),
        cell_x(size as int, r as int) == ax,
        cell_z(size as int, r as int) == az,
{
    proof {
        lemma_coords_of_number(size as int, ax as int, az as int);
        lemma_side(size as int);
        assert(0 <= az * size <= size * size) by (nonlinear_arith)
            requires
                0 <= az < size,
        ;
    }
    az as usize * size + ax as usize
}

/// The neighbour of `cell` on side `k`: east, south, west, north.
pub fn neighbor(size: usize, cell: usize, k: usize) -> (r: Option<usize>)
    requires
        side_ok(size as int),
        is_cell(size as int, cell as int),
        k < 4,
    ensures
        match r {
            Some(n) => step(size as int, cell as int, k as int) == Some(n as int) && is_cell(
                size as int,
                n as int,
            ),
            None => step(size as int, cell as int, k as int) is None,
        },
{
    proof {
        lemma_side(size as int);
        lemma_step(size as int, cell as int, k as int);
        reveal(step);
    }
    let ax: usize = cell % size;
    let az: usize = cell / size;
    if k == 0 {
        if ax + 1 < size {
            Some(cell + 1)
        } else {
            None
        }
    } else if k == 1 {
        if az + 1 < size {
            Some(cell + size)
        } else {
            None
        }
    } else if k == 2 {
        if ax > 0 {
            Some(cell - 1)
        } else {
            None
        }
    } else {
        if az > 0 {
            Some(cell - size)
        } else {
            None
        }
    }
}

/// All cells of a list are cells of the grid, each listed once.
pub open spec fn cell_list(size: int, cells: Seq<i32>) -> bool {
    &&& cells.no_duplicates()
    &&& forall|i: int| 0 <= i < cells.len() ==> is_cell(size, #[trigger] cells[i] as int)
}

/// `cells` lists exactly the cells joined to `start` over marked cells.
pub open spec fn is_part(size: int, mask: Seq<bool>, start: int, cells: Seq<i32>) -> bool {
    &&& cell_list(size, cells)
    &&& forall|c: int|
        #![trigger joined(size, mask, start, c)]
        joined(size, mask, start, c) ==> cells.contains(c as i32)
    &&& forall|i: int|
        0 <= i < cells.len() ==> joined(size, mask, start, #[trigger] cells[i] as int)
}

/// Lists the cells joined to `start`, depth first, and marks them as seen.
pub fn gather_part(size: usize, mask: &Vec<bool>, start: usize, seen: &mut Vec<bool>) -> (cells:
    Vec<i32>)
    requires
        side_ok(size as int),
        mask@.len() == size * size,
        old(seen)@.len() == size * size,
        is_cell(size as int, start as int),
        mask@[start as int],
        !old(seen)@[start as int],
        settled(size as int, mask@, old(seen)@),
    ensures
        is_part(size as int, mask@, start as int, cells@),
        cells@.len() > 0,
        cells@[0] == start,
        final(seen)@.len() == size * size,
        settled(size as int, mask@, final(seen)@),
        forall|c: int|
            is_cell(size as int, c) ==> (#[trigger] final(seen)@[c] <==> old(seen)@[c] || joined(
                size as int,
                mask@,
                start as int,
                c,
            )),
{
    let ghost n = size as int;
    let ghost m = mask@;
    let ghost seen0 = seen@;
    let ghost s0 = start as int;
    proof {
        lemma_side(n);
        lemma_joined_self(n, m, s0);
    }
    let mut cells: Vec<i32> = Vec::new();
    let mut stack: Vec<usize> = Vec::new();
    stack.push(start);
    seen.set(start, true);
    assert(stack@[0] == start);
    while stack.len() > 0
        invariant
            side_ok(n),
            n == size,
            m == mask@,
            s0 == start,
            m.len() == n * n,
            seen0.len() == n * n,
            seen@.len() == n * n,
            1 <= n * n <= 2147395600,
            settled(n, m, seen0),
            stack@.no_duplicates(),
            cell_list(n, cells@),
            cells@.len() == 0 ==> stack@ == seq![start],
            cells@.len() > 0 ==> cells@[0] == start,
            forall|i: int|
                0 <= i < stack@.len() ==> is_cell(n, #[trigger] stack@[i] as int)
                    && joined(n, m, s0, stack@[i] as int) && seen@[stack@[i] as int]
                    && !cells@.contains(stack@[i] as i32),
            forall|i: int|
                0 <= i < cells@.len() ==> joined(n, m, s0, #[trigger] cells@[i] as int)
                    && seen@[cells@[i] as int],
            forall|c: int|
                is_cell(n, c) && #[trigger] seen@[c] && !seen0[c] ==> stack@.contains(c as usize)
                    || cells@.contains(c as i32),
            forall|c: int| is_cell(n, c) && seen0[c] ==> #[trigger] seen@[c],
            forall|i: int, k: int|
                #![trigger step(n, cells@[i] as int, k)]
                0 <= i < cells@.len() && 0 <= k < 4 ==> match step(n, cells@[i] as int, k) {
                    Some(b) => is_cell(n, b) && m[b] ==> seen@[b],
                    None => true,
                },
        decreases n * n - cells@.len(),
    {
        let ghost stack_before = stack@;
        let ghost cells_before = cells@;
        let idx: usize = stack.pop().unwrap();
        proof {
            assert(stack_before.last() == idx);
            assert(stack_before[stack_before.len() - 1] == idx);
            assert(!cells_before.contains(idx as i32));
        }
        cells.push(idx as i32);
        proof {
            assert(cells@.last() == idx as i32);
            assert forall|i: int, j: int|
                0 <= i < cells@.len() && 0 <= j < cells@.len() && i != j implies cells@[i]
                != cells@[j] by {
                if i == cells_before.len() {
                    assert(cells_before.contains(cells_before[j]));
                } else if j == cells_before.len() {
                    assert(cells_before.contains(cells_before[i]));
                }
            }
            assert(cell_list(n, cells@));
            lemma_distinct_len(cells@, n * n);
            assert forall|i: int| 0 <= i < stack@.len() implies !cells@.contains(
                #[trigger] stack@[i] as i32,
            ) by {
                assert(stack@[i] == stack_before[i]);
                assert(stack_before[i] != idx);
                if cells@.contains(stack@[i] as i32) {
                    let j = choose|j: int| 0 <= j < cells@.len() && cells@[j] == stack@[i] as i32;
                    if j < cells_before.len() {
                        assert(cells_before.contains(cells_before[j]));
                    }
                }
            }
            assert forall|c: int|
                is_cell(n, c) && #[trigger] seen@[c] && !seen0[c] implies stack@.contains(
                c as usize,
            ) || cells@.contains(c as i32) by {
                if cells_before.contains(c as i32) {
                    let j = choose|j: int|
                        0 <= j < cells_before.len() && cells_before[j] == c as i32;
                    assert(cells@[j] == c as i32);
                } else {
                    let j = choose|j: int|
                        0 <= j < stack_before.len() && stack_before[j] == c as usize;
                    if j < stack@.len() {
                        assert(stack@[j] == c as usize);
                    } else {
                        assert(cells@[cells@.len() - 1] == c as i32);
                    }
                }
            }
        }
        let mut k: usize = 0;
        while k < 4
            invariant
                k <= 4,
                side_ok(n),
                n == size,
                m == mask@,
                s0 == start,
                m.len() == n * n,
                seen0.len() == n * n,
                seen@.len() == n * n,
                1 <= n * n <= 2147395600,
                stack@.no_duplicates(),
                cell_list(n, cells@),
                cells@.len() > 0,
                cells@[0] == start,
                is_cell(n, idx as int),
                cells@.last() == idx,
                joined(n, m, s0, idx as int),
                forall|i: int|
                    0 <= i < stack@.len() ==> is_cell(n, #[trigger] stack@[i] as int)
                        && joined(n, m, s0, stack@[i] as int) && seen@[stack@[i] as int]
                        && !cells@.contains(stack@[i] as i32),
                forall|i: int|
                    0 <= i < cells@.len() ==> joined(n, m, s0, #[trigger] cells@[i] as int)
                        && seen@[cells@[i] as int],
                forall|c: int|
                    is_cell(n, c) && #[trigger] seen@[c] && !seen0[c] ==> stack@.contains(
                        c as usize,
                    ) || cells@.contains(c as i32),
                forall|c: int| is_cell(n, c) && seen0[c] ==> #[trigger] seen@[c],
                forall|i: int, l: int|
                    #![trigger step(n, cells@[i] as int, l)]
                    0 <= i < cells@.len() && 0 <= l < 4 && (i < cells@.len() - 1 || l < k)
                        ==> match step(n, cells@[i] as int, l) {
                        Some(b) => is_cell(n, b) && m[b] ==> seen@[b],
                        None => true,
                    },
            decreases 4 - k,
        {
            proof {
                lemma_step(n, idx as int, k as int);
            }
            match neighbor(size, idx, k) {
                Some(nb) => {
                    if mask[nb] && !seen[nb] {
                        let ghost seen_before = seen@;
                        let ghost stack_mid = stack@;
                        proof {
                            assert(adjacent(n, idx as int, nb as int));
                            lemma_joined_step(n, m, s0, idx as int, nb as int);
                            assert(!stack@.contains(nb)) by {
                                if stack@.contains(nb) {
                                    let j = choose|j: int|
                                        0 <= j < stack@.len() && stack@[j] == nb;
                                    assert(seen@[stack@[j] as int]);
                                }
                            }
                            assert(!cells@.contains(nb as i32)) by {
                                if cells@.contains(nb as i32) {
                                    let j = choose|j: int|
                                        0 <= j < cells@.len() && cells@[j] == nb as i32;
                                    assert(seen@[cells@[j] as int]);
                                }
                            }
                        }
                        seen.set(nb, true);
                        stack.push(nb);
                        proof {
                            assert forall|i: int, j: int|
                                0 <= i < stack@.len() && 0 <= j < stack@.len() && i
                                    != j implies stack@[i] != stack@[j] by {
                                if i == stack_mid.len() {
                                    assert(stack_mid.contains(stack_mid[j]));
                                } else if j == stack_mid.len() {
                                    assert(stack_mid.contains(stack_mid[i]));
                                }
                            }
                            assert forall|c: int|
                                is_cell(n, c) && #[trigger] seen@[c]
                                    && !seen0[c] implies stack@.contains(c as usize)
                                || cells@.contains(c as i32) by {
                                if c == nb {
                                    assert(stack@[stack@.len() - 1] == c as usize);
                                } else {
                                    assert(seen_before[c]);
                                    if stack_mid.contains(c as usize) {
                                        let j = choose|j: int|
                                            0 <= j < stack_mid.len() && stack_mid[j] == c as usize;
                                        assert(stack@[j] == c as usize);
                                    }
                                }
                            }
                        }
                    }
                },
                None => {},
            }
            k += 1;
        }
    }
    proof {
        assert forall|a: int, k: int|
            #![trigger step(n, a, k)]
            is_cell(n, a) && 0 <= k < 4 && m[a] && seen@[a] implies match step(n, a, k) {
            Some(b) => is_cell(n, b) && m[b] ==> seen@[b],
            None => true,
        } by {
            lemma_step(n, a, k);
            if !seen0[a] {
                let j = choose|j: int| 0 <= j < cells@.len() && cells@[j] == a as i32;
                assert(step(n, cells@[j] as int, k) == step(n, a, k));
            }
        }
        assert forall|c: int| #[trigger] joined(n, m, s0, c) implies cells@.contains(c as i32) by {
            lemma_joined_ends(n, m, s0, c);
            assert(seen@[s0]) by {
                assert(seen@[cells@[0] as int]);
            }
            lemma_settled_holds(n, m, seen@, s0, c);
            if seen0[c] {
                lemma_joined_symmetric(n, m, s0, c);
                lemma_settled_holds(n, m, seen0, c, s0);
            }
        }
        assert forall|c: int| is_cell(n, c) implies (#[trigger] seen@[c] <==> seen0[c]
            || joined(n, m, s0, c)) by {
            if seen@[c] && !seen0[c] {
                let j = choose|j: int| 0 <= j < cells@.len() && cells@[j] == c as i32;
                assert(joined(n, m, s0, cells@[j] as int));
            }
            if joined(n, m, s0, c) {
                let j = choose|j: int| 0 <= j < cells@.len() && cells@[j] == c as i32;
                assert(seen@[cells@[j] as int]);
            }
        }
    }
    cells
}

/// `reached` marks exactly the cells joined to one of `seeds`.
pub open spec fn is_reach(size: int, mask: Seq<bool>, seeds: Seq<usize>, reached: Seq<bool>) -> bool {
    &&& reached.len() == size * size
    &&& forall|c: int|
        is_cell(size, c) ==> (#[trigger] reached[c] <==> exists|i: int|
            0 <= i < seeds.len() && joined(size, mask, #[trigger] seeds[i] as int, c))
}

/// Marks every cell that a walk over marked cells joins to one of `seeds`.
pub fn reach_from(size: usize, mask: &Vec<bool>, seeds: &Vec<usize>) -> (reached: Vec<bool>)
    requires
        side_ok(size as int),
        mask@.len() == size * size,
        forall|i: int|
            0 <= i < seeds@.len() ==> is_cell(size as int, #[trigger] seeds@[i] as int)
                && mask@[seeds@[i] as int],
    ensures
        is_reach(size as int, mask@, seeds@, reached@),
        settled(size as int, mask@, reached@),
{
    let ghost n = size as int;
    let ghost m = mask@;
    proof {
        lemma_side(n);
    }
    let count: usize = size * size;
    let mut reached: Vec<bool> = vec![false; count];
    let mut s: usize = 0;
    while s < seeds.len()
        invariant
            s <= seeds@.len(),
            side_ok(n),
            n == size,
            m == mask@,
            m.len() == n * n,
            reached@.len() == n * n,
            settled(n, m, reached@),
            forall|i: int|
                0 <= i < seeds@.len() ==> is_cell(n, #[trigger] seeds@[i] as int)
                    && m[seeds@[i] as int],
            forall|c: int|
                is_cell(n, c) ==> (#[trigger] reached@[c] <==> exists|i: int|
                    0 <= i < s && joined(n, m, #[trigger] seeds@[i] as int, c)),
        decreases seeds@.len() - s,
    {
        let seed: usize = seeds[s];
        let ghost before = reached@;
        if !reached[seed] {
            let _part: Vec<i32> = gather_part(size, mask, seed, &mut reached);
            proof {
                assert forall|c: int| is_cell(n, c) implies (#[trigger] reached@[c]
                    <==> exists|i: int|
                    0 <= i < s + 1 && joined(n, m, #[trigger] seeds@[i] as int, c)) by {
                    assert(reached@[c] <==> before[c] || joined(n, m, seed as int, c));
                    if joined(n, m, seed as int, c) {
                        assert(joined(n, m, seeds@[s as int] as int, c));
                    }
                    if before[c] {
                        let i = choose|i: int|
                            0 <= i < s && joined(n, m, #[trigger] seeds@[i] as int, c);
                        assert(joined(n, m, seeds@[i] as int, c));
                    }
                }
            }
        } else {
            proof {
                let j = choose|j: int|
                    0 <= j < s && joined(n, m, #[trigger] seeds@[j] as int, seed as int);
                assert forall|c: int| is_cell(n, c) implies (#[trigger] reached@[c]
                    <==> exists|i: int|
                    0 <= i < s + 1 && joined(n, m, #[trigger] seeds@[i] as int, c)) by {
                    if joined(n, m, seeds@[s as int] as int, c) {
                        lemma_joined_transitive(n, m, seeds@[j] as int, seed as int, c);
                        assert(joined(n, m, seeds@[j] as int, c));
                    }
                    if reached@[c] {
                        let i = choose|i: int|
                            0 <= i < s && joined(n, m, #[trigger] seeds@[i] as int, c);
                        assert(joined(n, m, seeds@[i] as int, c));
                    }
                }
            }
        }
        s += 1;
    }
    reached
}


proof fn lemma_joined_to_corner(size: int, c: int)
    requires
        side_ok(size),
        is_cell(size, c),
    ensures
        joined(size, Seq::new((size * size) as nat, |i: int| true), c, 0),
    decreases cell_x(size, c) + cell_z(size, c),
{
    let all = Seq::new((size * size) as nat, |i: int| true);
    lemma_side(size);
    lemma_cell_coords(size, c);
    let ax = cell_x(size, c);
    let az = cell_z(size, c);
    if c == 0 {
        lemma_joined_self(size, all, 0);
    } else {
        let k: int = if ax > 0 {
            2
        } else {
            3
        };
        let d = cell_number(
            size,
            if ax > 0 {
                ax - 1
            } else {
                ax
            },
            if ax > 0 {
                az
            } else {
                az - 1
            },
        );
        assert(ax > 0 || az > 0) by {
            if az == 0 {
                assert(c == 0 * size + ax);
            }
        }
        lemma_step_coords(size, ax, az, k);
        lemma_coords_of_number(
            size,
            if ax > 0 {
                ax - 1
            } else {
                ax
            },
            if ax > 0 {
                az
            } else {
                az - 1
            },
        );
        assert(step(size, c, k) == Some(d));
        lemma_joined_to_corner(size, d);
        assert(adjacent(size, c, d));
        lemma_joined_self(size, all, c);
        lemma_joined_step(size, all, c, c, d);
        lemma_joined_transitive(size, all, c, d, 0);
    }
}

/// Any two cells of the grid are joined.
pub proof fn lemma_grid_joined(size: int, a: int, b: int)
    requires
        side_ok(size),
        is_cell(size, a),
        is_cell(size, b),
    ensures
        joined(size, Seq::new((size * size) as nat, |i: int| true), a, b),
{
    let all = Seq::new((size * size) as nat, |i: int| true);
    lemma_joined_to_corner(size, a);
    lemma_joined_to_corner(size, b);
    lemma_joined_symmetric(size, all, b, 0);
    lemma_joined_transitive(size, all, a, 0, b);
}

} // verus!
