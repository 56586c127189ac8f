//! What roads cost: steps over the ground, and how dear nodes make a road.

use crate::atlas::biomes::{biome_number, Biome};
use crate::atlas::features::NodeKind;
use crate::atlas::pack::{cell_biome_id, cell_pop, cell_relief, lemma_field_ranges};
use crate::atlas::road_network::{law_node_factors, node_factor, pair_weight};
use crate::atlas::road_search::RoadView;
use crate::atlas::types::GraphNode;
use crate::rounding::{
    law_ratios_rise, law_ratios_stay_close, law_rounding_is_ordered, law_rounding_stays_close,
    ratio_to, rounded_to, single, SINGLE,
};
use vstd::prelude::*;

verus! {

/// How far up or down a step leads, in codes.
pub open spec fn climb(f: RoadView, from: int, to: int) -> int {
    if f.elev_code[to] >= f.elev_code[from] {
        f.elev_code[to] - f.elev_code[from]
    } else {
        f.elev_code[from] - f.elev_code[to]
    }
}

/// How wet a cell is to a road: beside a river, away from one, or in it.
pub open spec fn dampness(f: RoadView, to: int) -> int {
    if f.river_channel[to] != 0 {
        1
    } else if f.river_adjacent[to] != 0 {
        -1
    } else {
        0
    }
}

proof fn lemma_single_ordered(x: int, y: int)
    requires
        x <= y,
    ensures
        single(x) <= single(y),
{
    law_rounding_stays_close(x, SINGLE as int);
    law_rounding_stays_close(y, SINGLE as int);
    if x >= 0 {
        law_rounding_is_ordered(x, y, SINGLE as int);
    } else if y <= 0 {
        law_rounding_is_ordered(-y, -x, SINGLE as int);
        reveal(rounded_to);
    }
}

/// Ground that is rougher, steeper, in the mountains, wetter or emptier is never the cheaper
/// to lay a road over.
pub proof fn law_harder_ground_costs_more(
    f: RoadView,
    from: int,
    to: int,
    g: RoadView,
    start: int,
    end: int,
)
    requires
        cell_relief(f.cells[to]) <= cell_relief(g.cells[end]),
        climb(f, from, to) <= climb(g, start, end),
        cell_biome_id(f.cells[to]) == biome_number(Biome::Alpine) ==> cell_biome_id(g.cells[end])
            == biome_number(Biome::Alpine),
        dampness(f, to) <= dampness(g, end),
        cell_pop(f.cells[to]) >= cell_pop(g.cells[end]),
    ensures
        0x1_0000_0000 <= f.step_cost(from, to) <= g.step_cost(start, end),
{
    reveal(RoadView::step_cost);
    lemma_field_ranges(f.cells[to]);
    lemma_field_ranges(g.cells[end]);
    let (r, s) = (cell_relief(f.cells[to]) as int, cell_relief(g.cells[end]) as int);
    let (h, k) = (climb(f, from, to), climb(g, start, end));
    lemma_single_ordered(r * 257_698_032, s * 257_698_032);
    let (a, b) = (single(r * 257_698_032), single(s * 257_698_032));
    lemma_single_ordered(6_227_702_784 + a, 6_227_702_784 + b);
    let (c, d) = (single(6_227_702_784 + a), single(6_227_702_784 + b));
    lemma_single_ordered(h * 343_597_376, k * 343_597_376);
    let (e, i) = (single(h * 343_597_376), single(k * 343_597_376));
    lemma_single_ordered(c + e, d + i);
    let (l, m) = (single(c + e), single(d + i));
    lemma_single_ordered(l, l + 2_147_483_648);
    lemma_single_ordered(l + 2_147_483_648, m + 2_147_483_648);
    crate::rounding::law_rounding_settles(c + e, SINGLE as int);
    crate::rounding::law_rounding_settles(d + i, SINGLE as int);
    lemma_single_ordered(l, m + 2_147_483_648);
    let n = if cell_biome_id(f.cells[to]) == 6 {
        single(l + 2_147_483_648)
    } else {
        l
    };
    let o = if cell_biome_id(g.cells[end]) == 6 {
        single(m + 2_147_483_648)
    } else {
        m
    };
    assert(n <= o);
    crate::rounding::law_rounding_settles(l + 2_147_483_648, SINGLE as int);
    crate::rounding::law_rounding_settles(m + 2_147_483_648, SINGLE as int);
    assert(single(n) == n && single(o) == o);
    lemma_single_ordered(n - 858_993_472, n);
    lemma_single_ordered(n - 858_993_472, o);
    lemma_single_ordered(n - 858_993_472, o - 858_993_472);
    lemma_single_ordered(n - 858_993_472, o + 2_362_232_064);
    lemma_single_ordered(n, o + 2_362_232_064);
    lemma_single_ordered(n + 2_362_232_064, o + 2_362_232_064);
    let (p, q) = (cell_pop(f.cells[to]) as int, cell_pop(g.cells[end]) as int);
    lemma_single_ordered(q * 150_323_856, p * 150_323_856);
    let damp = if f.river_channel[to] != 0 {
        single(n + 2_362_232_064)
    } else if f.river_adjacent[to] != 0 {
        single(n - 858_993_472)
    } else {
        n
    };
    let wetter = if g.river_channel[end] != 0 {
        single(o + 2_362_232_064)
    } else if g.river_adjacent[end] != 0 {
        single(o - 858_993_472)
    } else {
        o
    };
    assert(damp <= wetter);
    let (x, y) = (single(p * 150_323_856), single(q * 150_323_856));
    lemma_single_ordered(
        damp - if x < 1_932_735_232 {
            x
        } else {
            1_932_735_232
        },
        wetter - if y < 1_932_735_232 {
            y
        } else {
            1_932_735_232
        },
    );
}

/// What a step costs, in thousandths and to a thousandth: 1.45, with 0.06 for a code of
/// relief, 0.08 for a code climbed or dropped, 0.5 in the mountains and 0.55 in a river; 0.2
/// less beside one, and 0.035 less for each step of population, 0.45 less at the most. It
/// never costs less than one.
pub proof fn law_steps_cost_by_their_ground(f: RoadView, from: int, to: int, milli: int)
    requires
        milli == 1450 + 60 * cell_relief(f.cells[to]) + 80 * climb(f, from, to) + (if cell_biome_id(
            f.cells[to],
        ) == biome_number(Biome::Alpine) {
            500int
        } else {
            0
        }) + (if dampness(f, to) > 0 {
            550int
        } else if dampness(f, to) < 0 {
            -200
        } else {
            0
        }) - (if cell_pop(f.cells[to]) <= 12 {
            35 * cell_pop(f.cells[to])
        } else {
            450
        }),
    ensures
        f.step_cost(from, to) >= 0x1_0000_0000,
        milli >= 1000 ==> (milli - 1) * 0x1_0000_0000 <= 1000 * f.step_cost(from, to) <= (milli + 1)
            * 0x1_0000_0000,
        milli <= 1000 ==> 1000 * f.step_cost(from, to) <= 1001 * 0x1_0000_0000,
{
    reveal(RoadView::step_cost);
    lemma_field_ranges(f.cells[to]);
    let top = SINGLE as int;
    let r = cell_relief(f.cells[to]) as int;
    let h = climb(f, from, to);
    assert(0 <= h <= 255);
    law_rounding_stays_close(r * 257_698_032, top);
    let a = single(r * 257_698_032);
    law_rounding_stays_close(6_227_702_784 + a, top);
    let b = single(6_227_702_784 + a);
    law_rounding_stays_close(h * 343_597_376, top);
    let c = single(h * 343_597_376);
    law_rounding_stays_close(b + c, top);
    let d = single(b + c);
    law_rounding_stays_close(d + 2_147_483_648, top);
    let e = if cell_biome_id(f.cells[to]) == 6 {
        single(d + 2_147_483_648)
    } else {
        d
    };
    law_rounding_stays_close(e + 2_362_232_064, top);
    law_rounding_stays_close(e - 858_993_472, top);
    let damp = if f.river_channel[to] != 0 {
        single(e + 2_362_232_064)
    } else if f.river_adjacent[to] != 0 {
        single(e - 858_993_472)
    } else {
        e
    };
    let p = cell_pop(f.cells[to]) as int;
    law_rounding_stays_close(p * 150_323_856, top);
    let x = single(p * 150_323_856);
    law_rounding_stays_close(
        damp - if x < 1_932_735_232 {
            x
        } else {
            1_932_735_232
        },
        top,
    );
}

/// A road is never dearer for more people at its end, and never dearer for a settlement there
/// than for another node; where nobody lives and no settlement stands it is as dear as can
/// be.
pub proof fn law_peopled_ends_are_cheaper(
    cells: Seq<i32>,
    busy: GraphNode,
    quiet: GraphNode,
)
    requires
        0 <= cell_pop(cells[quiet.cell as int]) <= cell_pop(cells[busy.cell as int]) <= 15,
        quiet.kind == NodeKind::Settlement ==> busy.kind == NodeKind::Settlement,
    ensures
        node_factor(cells, busy) <= node_factor(cells, quiet) <= 0x100_0000,
        cell_pop(cells[quiet.cell as int]) == 0 && quiet.kind != NodeKind::Settlement
            ==> node_factor(cells, quiet) == 0x100_0000,
{
    let top = SINGLE as int;
    let (p, q) = (cell_pop(cells[busy.cell as int]) as int, cell_pop(cells[quiet.cell as int]) as int);
    law_node_factors(cells, busy);
    law_node_factors(cells, quiet);
    law_ratios_rise(q * 0x1_0000_0000, p * 0x1_0000_0000, 15, top);
    let (a, b) = (
        ratio_to(p * 0x1_0000_0000, 15, top),
        ratio_to(q * 0x1_0000_0000, 15, top),
    );
    lemma_single_ordered(-4_697_620 * a, -4_697_620 * b);
    let (c, d) = (single(-4_697_620 * a), single(-4_697_620 * b));
    lemma_single_ordered(0x100_0000_0000_0000 + c, 0x100_0000_0000_0000 + d);
    let (x, y) = (
        single(0x100_0000_0000_0000 + c) / 0x1_0000_0000,
        single(0x100_0000_0000_0000 + d) / 0x1_0000_0000,
    );
    assert(x <= y);
    lemma_single_ordered(x * 14_260_634, y * 14_260_634);
    law_rounding_stays_close(x * 14_260_634, top);
    if q == 0 {
        law_ratios_stay_close(0, 15, top);
        assert(15 * b == 0) by {
            crate::rounding::lemma_ratio(0, 15, top);
            vstd::arithmetic::power2::lemma2_to64();
            let j = crate::rounding::lemma_grain_of(0, top);
        }
        law_rounding_stays_close(0, top);
        vstd::arithmetic::power2::lemma2_to64();
        vstd::arithmetic::power2::lemma2_to64_rest();
        crate::rounding::law_grains_stay(1, 56, top);
    }
}

/// How dear a road from a node is, to a thousandth: 0.28 less where it is fullest, in
/// proportion to the people, and 0.85 of that for a settlement.
pub proof fn law_factors_fall_with_people(cells: Seq<i32>, node: GraphNode, pop: int)
    requires
        pop == cell_pop(cells[node.cell as int]),
        0 <= pop <= 15,
    ensures
        node.kind != NodeKind::Settlement ==> (15_000 - 280 * pop - 15) * 0x100_0000 <= 15_000
            * node_factor(cells, node) <= (15_000 - 280 * pop + 15) * 0x100_0000,
        node.kind == NodeKind::Settlement ==> (15_000 - 280 * pop - 20) * 85 * 0x100_0000
            <= 1_500_000 * node_factor(cells, node) <= (15_000 - 280 * pop + 20) * 85 * 0x100_0000,
{
    let top = SINGLE as int;
    let n = pop * 0x1_0000_0000;
    law_node_factors(cells, node);
    law_ratios_stay_close(n, 15, top);
    let density = ratio_to(n, 15, top);
    assert(2 * top * (15 * density - n) == 0x200_0000 * (15 * density - n));
    assert(2 * top * (n - 15 * density) == 0x200_0000 * (n - 15 * density));
    law_rounding_stays_close(-4_697_620 * density, top);
    let fall = single(-4_697_620 * density);
    law_rounding_stays_close(0x100_0000_0000_0000 + fall, top);
    let thinned = single(0x100_0000_0000_0000 + fall) / 0x1_0000_0000;
    law_rounding_stays_close(thinned * 14_260_634, top);
}

/// A road between two nodes weighs as much as they lie apart along rows and columns at the
/// most, four thirteenths of it at the least, and nothing where they share a cell.
pub proof fn law_weights_follow_the_distance(
    cells: Seq<i32>,
    a: GraphNode,
    b: GraphNode,
    apart: int,
)
    requires
        0 <= cell_pop(cells[a.cell as int]) <= 15,
        0 <= cell_pop(cells[b.cell as int]) <= 15,
        apart == (if a.ax >= b.ax {
            a.ax - b.ax
        } else {
            b.ax - a.ax
        }) + (if a.az >= b.az {
            a.az - b.az
        } else {
            b.az - a.az
        }),
        apart <= 92_680,
    ensures
        13 * pair_weight(cells, a, b) >= 4 * apart * 0x1_0000_0000_0000,
        1000 * pair_weight(cells, a, b) <= 1001 * apart * 0x1_0000_0000_0000,
        apart == 0 ==> pair_weight(cells, a, b) == 0,
{
    reveal(pair_weight);
    let top = SINGLE as int;
    law_node_factors(cells, a);
    law_node_factors(cells, b);
    let (f, g) = (node_factor(cells, a), node_factor(cells, b));
    assert(apart * 0x99_0000 <= apart * f <= apart * 0x100_0000) by (nonlinear_arith)
        requires
            apart >= 0,
            0x99_0000 <= f <= 0x100_0000,
    ;
    law_rounding_stays_close(apart * f, top);
    let one = single(apart * f);
    assert(one * 0x99_0000 <= one * g <= one * 0x100_0000) by (nonlinear_arith)
        requires
            one >= 0,
            0x99_0000 <= g <= 0x100_0000,
    ;
    law_rounding_stays_close(one * g, top);
}

} // verus!
