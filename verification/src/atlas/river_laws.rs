//! Where rivers run, and what their links tell.

use crate::atlas::cell_map::list_at;
use crate::atlas::drainage::{
    areas_drained, drains_in_order, law_rivers_grow_downstream, wet,
};
use crate::atlas::features::{EndpointKind, Kind};
use crate::atlas::grid::{adjacent, is_cell, lemma_side, step};
use crate::atlas::biomes::{biome_number, Biome};
use crate::atlas::pack::{cell_biome_id, code_metres};
use crate::atlas::rivers::{
    class_of_area, key_between, links_added, port_again, rivers_added, PortVisit, RiverView,
};
use crate::atlas::types::{Endpoint, Link, Port};
use vstd::prelude::*;

verus! {

/// A cell's links are its own once its turn has come, and nobody else's matter.
proof fn lemma_links_of_cell(f: RiverView, links0: Map<i32, Seq<Link>>, upto: nat, c: int)
    requires
        0 <= c <= i32::MAX,
        upto <= i32::MAX,
    ensures
        ({
            let links = links_added(f, links0, upto);
            let key = c as i32;
            if c < upto && f.flows(c) {
                links.contains_key(key) && links[key] == list_at(links0, key) + f.cell_links(c)
            } else {
                links.contains_key(key) == links0.contains_key(key) && (links0.contains_key(key)
                    ==> links[key] == links0[key])
            }
        }),
    decreases upto,
{
    if upto > 0 {
        lemma_links_of_cell(f, links0, (upto - 1) as nat, c);
    }
}

/// A cell gets river links exactly where it is land that hands its water on and drains
/// twelve cells or more, and 180 for every thousand cells of the continent's side.
pub proof fn law_rivers_run_where_enough_drains(
    f: RiverView,
    ports0: Map<i32, Seq<Port>>,
    links0: Map<i32, Seq<Link>>,
    ports: Map<i32, Seq<Port>>,
    links: Map<i32, Seq<Link>>,
    c: int,
)
    requires
        rivers_added(f, ports0, links0, ports, links),
        1 <= f.size <= 46340,
        is_cell(f.size, c),
        !links0.contains_key(c as i32),
    ensures
        links.contains_key(c as i32) <==> {
            &&& cell_biome_id(f.cells[c]) != 0
            &&& cell_biome_id(f.cells[c]) != 8
            &&& f.receiver[c] >= 0
            &&& f.area[c] >= 12
            &&& 1000 * f.area[c] >= 180 * f.size
        },
        f.size == 1000 && f.area[c] < 180 ==> !links.contains_key(c as i32),
        f.area[c] < 12 ==> !links.contains_key(c as i32),
{
    reveal(rivers_added);
    lemma_side(f.size);
    lemma_links_of_cell(f, links0, (f.size * f.size) as nat, c);
}

/// The neighbour on side `k` has a river that runs into `c`.
pub open spec fn runs_in(f: RiverView, links: Map<i32, Seq<Link>>, c: int, k: int) -> bool {
    step(f.size, c, k) is Some && links.contains_key(step(f.size, c, k)->0 as i32)
        && f.receiver[step(f.size, c, k)->0] == c
}

/// The edge by which the river of the neighbour on side `k` comes into `c`.
pub open spec fn inlet(f: RiverView, c: int, k: int) -> Endpoint {
    Endpoint {
        kind: EndpointKind::EdgePort,
        ref_id: key_between(f.size, step(f.size, c, k)->0, c),
        port_id: 0,
    }
}

proof fn lemma_inflows(f: RiverView, c: int, n: nat)
    requires
        n <= 4,
    ensures
        f.inflow_links(c, n).len() <= n,
        forall|i: int|
            0 <= i < f.inflow_links(c, n).len() ==> {
                let l = #[trigger] f.inflow_links(c, n)[i];
                &&& l == f.river_link(c, l.a)
                &&& l.a.kind == EndpointKind::EdgePort
                &&& exists|k: int| 0 <= k < n && #[trigger] f.feeds(c, k) && l.a == inlet(f, c, k)
            },
        forall|k: int|
            0 <= k < n && #[trigger] f.feeds(c, k) ==> exists|i: int|
                0 <= i < f.inflow_links(c, n).len() && (#[trigger] f.inflow_links(c, n)[i]).a
                    == inlet(f, c, k),
    decreases n,
{
    if n > 0 {
        let before = f.inflow_links(c, (n - 1) as nat);
        let now = f.inflow_links(c, n);
        lemma_inflows(f, c, (n - 1) as nat);
        assert forall|i: int| 0 <= i < now.len() implies ({
            let l = #[trigger] now[i];
            &&& l == f.river_link(c, l.a)
            &&& l.a.kind == EndpointKind::EdgePort
            &&& exists|k: int| 0 <= k < n && #[trigger] f.feeds(c, k) && l.a == inlet(f, c, k)
        }) by {
            if i < before.len() {
                let l = before[i];
                assert(now[i] == l);
                let k = choose|k: int|
                    0 <= k < n - 1 && #[trigger] f.feeds(c, k) && l.a == inlet(f, c, k);
                assert(f.feeds(c, k));
            } else {
                assert(f.feeds(c, n - 1));
                assert(now[i].a == inlet(f, c, n - 1));
            }
        }
        assert forall|k: int| 0 <= k < n && #[trigger] f.feeds(c, k) implies exists|i: int|
            0 <= i < now.len() && (#[trigger] now[i]).a == inlet(f, c, k) by {
            if k < n - 1 {
                let i = choose|i: int|
                    0 <= i < before.len() && (#[trigger] before[i]).a == inlet(f, c, k);
                assert(now[i] == before[i]);
            } else {
                assert(now[before.len() as int].a == inlet(f, c, k));
            }
        }
    }
}

/// The links of a river cell, as they were read.
proof fn lemma_river_cell(
    f: RiverView,
    ports0: Map<i32, Seq<Port>>,
    links0: Map<i32, Seq<Link>>,
    ports: Map<i32, Seq<Port>>,
    links: Map<i32, Seq<Link>>,
    c: int,
)
    requires
        rivers_added(f, ports0, links0, ports, links),
        1 <= f.size <= 46340,
        is_cell(f.size, c),
        links0 == Map::<i32, Seq<Link>>::empty(),
        links.contains_key(c as i32),
    ensures
        f.flows(c),
        links[c as i32] == f.cell_links(c),
        1 <= links[c as i32].len() <= 4,
        forall|i: int|
            0 <= i < links[c as i32].len() ==> (#[trigger] links[c as i32][i]) == f.river_link(
                c,
                links[c as i32][i].a,
            ),
{
    lemma_side(f.size);
    reveal(rivers_added);
    lemma_links_of_cell(f, links0, (f.size * f.size) as nat, c);
    assert(links[c as i32] =~= f.cell_links(c));
    lemma_inflows(f, c, 4);
    let ls = links[c as i32];
    assert forall|i: int| 0 <= i < ls.len() implies (#[trigger] ls[i]) == f.river_link(
        c,
        ls[i].a,
    ) by {
        if f.inflow_links(c, 4).len() > 0 {
            assert(ls[i] == f.inflow_links(c, 4)[i]);
        }
    }
}

proof fn lemma_feeds(
    f: RiverView,
    ports0: Map<i32, Seq<Port>>,
    links0: Map<i32, Seq<Link>>,
    ports: Map<i32, Seq<Port>>,
    links: Map<i32, Seq<Link>>,
    c: int,
    k: int,
)
    requires
        rivers_added(f, ports0, links0, ports, links),
        1 <= f.size <= 46340,
        is_cell(f.size, c),
        links0 == Map::<i32, Seq<Link>>::empty(),
        0 <= k < 4,
    ensures
        runs_in(f, links, c, k) <==> f.feeds(c, k),
{
    lemma_side(f.size);
    reveal(rivers_added);
    crate::atlas::grid::lemma_step(f.size, c, k);
    if step(f.size, c, k) is Some {
        lemma_links_of_cell(f, links0, (f.size * f.size) as nat, step(f.size, c, k)->0);
    }
}

/// Where the links of a river cell lead. There are one to four. Each is a river's, of class
/// one below nine cells drained, two below 27, three below 81 and four from there on, and
/// each leads to where the water goes: the sea, the lake it falls into, or the edge to the
/// next land.
pub proof fn law_river_links_lead_down(
    f: RiverView,
    ports0: Map<i32, Seq<Port>>,
    links0: Map<i32, Seq<Link>>,
    ports: Map<i32, Seq<Port>>,
    links: Map<i32, Seq<Link>>,
    c: int,
    i: int,
)
    requires
        rivers_added(f, ports0, links0, ports, links),
        1 <= f.size <= 46340,
        is_cell(f.size, c),
        links0 == Map::<i32, Seq<Link>>::empty(),
        links.contains_key(c as i32),
        0 <= i < links[c as i32].len(),
    ensures
        1 <= links[c as i32].len() <= 4,
        ({
            let l = links[c as i32][i];
            let down = f.receiver[c] as int;
            &&& l.kind == Kind::River
            &&& l.feature_class == if f.area[c] < 9 {
                1
            } else if f.area[c] < 27 {
                2
            } else if f.area[c] < 81 {
                3
            } else {
                4int
            }
            &&& l.b.kind == EndpointKind::Ocean <==> cell_biome_id(f.cells[down]) == 0
            &&& l.b.kind == EndpointKind::Lake <==> cell_biome_id(f.cells[down]) == 8
            &&& l.b.kind == EndpointKind::Lake ==> l.b.ref_id == f.lake_id[down]
            &&& cell_biome_id(f.cells[down]) != 0 && cell_biome_id(f.cells[down]) != 8 ==> l.b.kind
                == EndpointKind::EdgePort && l.b.ref_id == key_between(f.size, c, down)
        }),
{
    lemma_river_cell(f, ports0, links0, ports, links, c);
    let l = links[c as i32][i];
    assert(l == f.river_link(c, l.a));
}

/// Every river that runs into a river cell has a link there, from the edge it comes by.
pub proof fn law_rivers_that_run_in_are_linked(
    f: RiverView,
    ports0: Map<i32, Seq<Port>>,
    links0: Map<i32, Seq<Link>>,
    ports: Map<i32, Seq<Port>>,
    links: Map<i32, Seq<Link>>,
    c: int,
    k: int,
)
    requires
        rivers_added(f, ports0, links0, ports, links),
        1 <= f.size <= 46340,
        is_cell(f.size, c),
        links0 == Map::<i32, Seq<Link>>::empty(),
        links.contains_key(c as i32),
        0 <= k < 4,
        runs_in(f, links, c, k),
    ensures
        exists|i: int|
            0 <= i < links[c as i32].len() && (#[trigger] links[c as i32][i]).a == inlet(f, c, k),
{
    lemma_river_cell(f, ports0, links0, ports, links, c);
    lemma_inflows(f, c, 4);
    lemma_feeds(f, ports0, links0, ports, links, c, k);
    let ins = f.inflow_links(c, 4);
    let i = choose|i: int| 0 <= i < ins.len() && (#[trigger] ins[i]).a == inlet(f, c, k);
    assert(links[c as i32][i].a == inlet(f, c, k));
}

/// Every link of a river cell comes from a river that runs in, or else from the spring of a
/// river that begins there: that is the only link of a cell that no river runs into.
pub proof fn law_river_links_come_from_above(
    f: RiverView,
    ports0: Map<i32, Seq<Port>>,
    links0: Map<i32, Seq<Link>>,
    ports: Map<i32, Seq<Port>>,
    links: Map<i32, Seq<Link>>,
    c: int,
    i: int,
)
    requires
        rivers_added(f, ports0, links0, ports, links),
        1 <= f.size <= 46340,
        is_cell(f.size, c),
        links0 == Map::<i32, Seq<Link>>::empty(),
        links.contains_key(c as i32),
        0 <= i < links[c as i32].len(),
    ensures
        if links[c as i32][i].a.kind == EndpointKind::Node {
            &&& links[c as i32].len() == 1
            &&& links[c as i32][i].a.ref_id == -1 - c
            &&& forall|k: int| 0 <= k < 4 ==> !#[trigger] runs_in(f, links, c, k)
        } else {
            exists|k: int|
                0 <= k < 4 && #[trigger] runs_in(f, links, c, k) && links[c as i32][i].a == inlet(
                    f,
                    c,
                    k,
                )
        },
{
    lemma_side(f.size);
    lemma_river_cell(f, ports0, links0, ports, links, c);
    let ins = f.inflow_links(c, 4);
    if ins.len() == 0 {
        assert(links[c as i32][i].a.kind == EndpointKind::Node);
        assert forall|k: int| 0 <= k < 4 implies !#[trigger] runs_in(f, links, c, k) by {
            if runs_in(f, links, c, k) {
                lemma_inflows(f, c, 4);
                lemma_feeds(f, ports0, links0, ports, links, c, k);
                let j = choose|j: int|
                    0 <= j < ins.len() && (#[trigger] ins[j]).a == inlet(f, c, k);
                assert(false);
            }
        }
    } else {
        assert(links[c as i32] == ins);
        lemma_inflows(f, c, 4);
        let l = ins[i];
        let k = choose|k: int| 0 <= k < 4 && #[trigger] f.feeds(c, k) && l.a == inlet(f, c, k);
        lemma_feeds(f, ports0, links0, ports, links, c, k);
        assert(runs_in(f, links, c, k));
    }
}

/// A river does not end on land: the land a river cell hands its water to carries a river
/// too, and that river has a link from the very edge by which the first one leaves.
pub proof fn law_rivers_go_on(
    f: RiverView,
    order: Seq<usize>,
    ports0: Map<i32, Seq<Port>>,
    links0: Map<i32, Seq<Link>>,
    ports: Map<i32, Seq<Port>>,
    links: Map<i32, Seq<Link>>,
    c: int,
)
    requires
        rivers_added(f, ports0, links0, ports, links),
        f.well_formed(),
        areas_drained(f.size, f.cells, f.receiver, order, f.area),
        drains_in_order(f.size, f.cells, f.receiver, order),
        is_cell(f.size, c),
        links0 == Map::<i32, Seq<Link>>::empty(),
        links.contains_key(c as i32),
        cell_biome_id(f.cells[f.receiver[c] as int]) != 0,
        cell_biome_id(f.cells[f.receiver[c] as int]) != 8,
    ensures
        links.contains_key(f.receiver[c]),
        exists|i: int|
            0 <= i < links[f.receiver[c]].len() && (#[trigger] links[f.receiver[c]][i]).a
                == links[c as i32][0].b,
{
    lemma_side(f.size);
    let d = f.receiver[c] as int;
    assert(d as i32 == f.receiver[c]);
    law_rivers_run_where_enough_drains(f, ports0, links0, ports, links, c);
    assert(is_cell(f.size, d) && adjacent(f.size, d, c));
    law_rivers_grow_downstream(f.size, f.cells, f.receiver, order, f.area, c);
    assert(f.receiver[d] >= 0) by {
        assert(order.contains(c as usize));
        let p = choose|p: int| 0 <= p < order.len() && order[p] == c as usize;
        assert(order[p] == c);
        assert(!wet(f.cells, d));
        let q = choose|q: int| 0 <= q < p && #[trigger] order[q] == f.receiver[order[p] as int];
        assert(f.receiver[order[q] as int] >= 0);
    }
    law_rivers_run_where_enough_drains(f, ports0, links0, ports, links, d);
    let k = choose|k: int| 0 <= k < 4 && #[trigger] step(f.size, d, k) == Some(c);
    assert(runs_in(f, links, d, k));
    law_rivers_that_run_in_are_linked(f, ports0, links0, ports, links, d, k);
    lemma_river_cell(f, ports0, links0, ports, links, c);
    let l = links[c as i32][0];
    assert(l == f.river_link(c, l.a));
    assert(l.b == inlet(f, d, k));
}

/// The class of a river is the whole logarithm of its area to base three, held to one and
/// four: three times the area is the next class.
pub proof fn law_classes_rise_threefold(area: int)
    ensures
        1 <= class_of_area(area) <= 4,
        area < 9 <==> class_of_area(area) == 1,
        area >= 81 <==> class_of_area(area) == 4,
        9 <= area ==> class_of_area(3 * area) == if class_of_area(area) == 4 {
            4
        } else {
            class_of_area(area) + 1
        },
{
}

/// A port visited again never falls in class, keeps the height it has, and keeps its name.
pub proof fn law_ports_keep_the_higher_class(p: Port, v: PortVisit)
    requires
        i32::MIN <= v.class <= i32::MAX,
    ensures
        port_again(p, v).feature_class >= p.feature_class,
        port_again(p, v).feature_class >= v.class,
        port_again(p, v).feature_class == p.feature_class || port_again(p, v).feature_class
            == v.class,
        p.surface_z != 0 ==> port_again(p, v).surface_z == p.surface_z,
        port_again(p, v).id == p.id,
        port_again(p, v).t_seed == p.t_seed,
        port_again(p, v).feature_id == p.feature_id,
{
}

impl RiverView {
    /// The river of a cell goes into the sea where it runs to sea, into the lake where it
    /// runs to one, and over the edge elsewhere. Into a lake it runs at the lake's height.
    pub proof fn law_rivers_go_where_they_run(&self, c: int)
        ensures
            ({
                let d = self.receiver[c] as int;
                let id = cell_biome_id(self.cells[d]) as int;
                let out = self.outflow(c);
                &&& id == biome_number(Biome::Ocean) <==> out.kind == EndpointKind::Ocean
                &&& id == biome_number(Biome::Lake) <==> out.kind == EndpointKind::Lake
                &&& id == biome_number(Biome::Lake) ==> out.ref_id == self.lake_id[d]
                    && self.river_z(c) == self.lakes[self.lake_id[d] as int].surface_z
                &&& id != biome_number(Biome::Lake) ==> self.river_z(c) == code_metres(
                    self.elev_code[c] as int,
                )
                &&& self.river_link(c, out).b == out
                &&& self.river_link(c, out).kind == Kind::River
                &&& self.river_link(c, out).feature_class == class_of_area(self.area[c] as int)
            }),
    {
    }
}

} // verus!
