//! What is read off the waters of a continent: where links end, how high water stands, which
//! side faces it; and where massifs are tried.

use crate::atlas::biomes::Biome;
use crate::atlas::continent::ContinentAtlas;
use crate::atlas::features::{Dir, EndpointKind, Kind};
use crate::atlas::grid::{cell_number, inside};
use crate::atlas::hydro::{
    best_lake, drawn_half_width_of, half_width_of, lake_body, lake_surface, link_water, port_at,
    port_key, samples_of, tint, HydroSink, Layer, Place, ShoreView, WaterBody, WaterBodyKind,
};
use crate::atlas::massifs::MassifSource;
use crate::atlas::pack::cell_biome;
use crate::atlas::types::{Endpoint, Lake, Link, Port};
use vstd::prelude::*;

verus! {

/// A link ends in the sea or in a lake exactly where one of its ends does; its first end goes
/// before its second, and a lake it ends in is the one that the end names.
pub proof fn law_links_end_where_their_ends_do(l: Link)
    ensures
        l.a.kind == EndpointKind::Ocean ==> link_water(l) == Some(HydroSink::Ocean),
        l.a.kind == EndpointKind::Lake ==> link_water(l) == Some(
            HydroSink::Lake { lake_id: l.a.ref_id },
        ),
        (l.a.kind == EndpointKind::EdgePort || l.a.kind == EndpointKind::Node) && l.b.kind
            == EndpointKind::Ocean ==> link_water(l) == Some(HydroSink::Ocean),
        (l.a.kind == EndpointKind::EdgePort || l.a.kind == EndpointKind::Node) && l.b.kind
            == EndpointKind::Lake ==> link_water(l) == Some(
            HydroSink::Lake { lake_id: l.b.ref_id },
        ),
        link_water(l) is None <==> (l.a.kind == EndpointKind::EdgePort || l.a.kind
            == EndpointKind::Node) && (l.b.kind == EndpointKind::EdgePort || l.b.kind
            == EndpointKind::Node),
        port_key(l.a) is Some <==> l.a.kind == EndpointKind::EdgePort,
        l.a.kind == EndpointKind::EdgePort ==> port_key(l.a) == Some((l.a.ref_id, l.a.port_id)),
{
}

/// A river of a higher class is never the narrower, and is drawn wider than it is.
pub proof fn law_rivers_widen_with_their_class(class: int, higher: int)
    requires
        class <= higher,
    ensures
        10 <= half_width_of(class) <= half_width_of(higher) <= 34,
        12 <= drawn_half_width_of(class) <= drawn_half_width_of(higher) <= 42,
        half_width_of(class) < drawn_half_width_of(class),
        1 <= class < higher <= 4 ==> half_width_of(class) < half_width_of(higher)
            && drawn_half_width_of(class) < drawn_half_width_of(higher),
{
}

proof fn lemma_lake_surface(lakes: Seq<Lake>, id: i32, from: int)
    requires
        0 <= from <= lakes.len(),
    ensures
        match lake_surface(lakes, id, from) {
            Some(z) => exists|l: int|
                from <= l < lakes.len() && (#[trigger] lakes[l]).id == id && lakes[l].surface_z
                    == z,
            None => forall|l: int| from <= l < lakes.len() ==> (#[trigger] lakes[l]).id != id,
        },
    decreases lakes.len() - from,
{
    if from < lakes.len() && lakes[from].id != id {
        lemma_lake_surface(lakes, id, from + 1);
        if lake_surface(lakes, id, from) is Some {
            let z = lake_surface(lakes, id, from)->0;
            let l = choose|l: int|
                from + 1 <= l < lakes.len() && (#[trigger] lakes[l]).id == id
                    && lakes[l].surface_z == z;
            assert(lakes[l].id == id);
        }
    } else if from < lakes.len() {
        assert(lakes[from].surface_z == lake_surface(lakes, id, from)->0);
    }
}

proof fn lemma_port_at(ports: Seq<Port>, id: i32, from: int)
    requires
        0 <= from <= ports.len(),
    ensures
        match port_at(ports, id, from) {
            Some(i) => from <= i < ports.len() && ports[i].id == id,
            None => forall|i: int| from <= i < ports.len() ==> (#[trigger] ports[i]).id != id,
        },
    decreases ports.len() - from,
{
    if from < ports.len() && ports[from].id != id {
        lemma_port_at(ports, id, from + 1);
    }
}

impl ContinentAtlas {
    /// Water stands at the sea's height in the sea, at a lake's in that lake, and where an
    /// endpoint is no port and no water at the height of the ground.
    pub proof fn law_water_stands_level(&self, e: Endpoint, ax: int, az: int, l: int)
        requires
            0 <= l < self.lakes@.len(),
            forall|a: int, b: int|
                0 <= a < b < self.lakes@.len() ==> (#[trigger] self.lakes@[a]).id != (
                #[trigger] self.lakes@[b]).id,
        ensures
            e.kind == EndpointKind::Ocean ==> self.sheet_z(e, ax, az) == self.sea_surface_z,
            e.kind == EndpointKind::Lake && e.ref_id == self.lakes@[l].id ==> self.sheet_z(
                e,
                ax,
                az,
            ) == self.lakes@[l].surface_z,
            e.kind == EndpointKind::Node ==> self.sheet_z(e, ax, az) == self.ground_z(ax, az),
    {
        lemma_lake_surface(self.lakes@, e.ref_id, 0);
        if e.kind == EndpointKind::Lake && e.ref_id == self.lakes@[l].id {
            let z = lake_surface(self.lakes@, e.ref_id, 0)->0;
            let m = choose|m: int|
                0 <= m < self.lakes@.len() && (#[trigger] self.lakes@[m]).id == e.ref_id
                    && self.lakes@[m].surface_z == z;
            assert(m == l);
        }
    }

    /// Water stands at a port as high as the river's port of that id says.
    pub proof fn law_water_stands_at_ports(&self, e: Endpoint, ax: int, az: int, i: int)
        requires
            e.kind == EndpointKind::EdgePort,
            self.ports(Kind::River).contains_key(e.ref_id),
            0 <= i < self.ports(Kind::River)[e.ref_id].len(),
            self.ports(Kind::River)[e.ref_id][i].id == e.port_id,
            forall|j: int|
                0 <= j < self.ports(Kind::River)[e.ref_id].len() && j != i ==> (
                #[trigger] self.ports(Kind::River)[e.ref_id][j]).id != e.port_id,
        ensures
            self.sheet_z(e, ax, az) == self.ports(Kind::River)[e.ref_id][i].surface_z,
    {
        lemma_port_at(self.ports(Kind::River)[e.ref_id], e.port_id, 0);
    }

    /// The side that faces a biome does face it: it lies next to a cell of that biome, or, for
    /// the sea, beyond the grid. There is none only where no side does.
    pub proof fn law_sides_face_their_biome(&self, ax: int, az: int, b: Biome)
        ensures
            ({
                let east = self.lies_at(ax + 1, az, b);
                let south = self.lies_at(ax, az + 1, b);
                let west = self.lies_at(ax - 1, az, b);
                let north = self.lies_at(ax, az - 1, b);
                match self.side_facing(ax, az, b) {
                    Some(Dir::East) => east,
                    Some(Dir::South) => south && !east,
                    Some(Dir::West) => west && !east && !south,
                    Some(Dir::North) => north && !east && !south && !west,
                    None => !east && !south && !west && !north,
                }
            }),
    {
    }

    /// Whether a biome lies at a place; beyond the grid lies the sea.
    pub open spec fn lies_at(&self, ax: int, az: int, b: Biome) -> bool {
        if inside(self.size as int, ax, az) {
            cell_biome(self.cell(ax, az)) == b
        } else {
            b == Biome::Ocean
        }
    }

    /// Only sea, lakes and what lies beyond the grid are water; land lies beside a cell
    /// exactly where one of its four sides leads to a cell of something else.
    pub proof fn law_land_lies_beside(&self, ax: int, az: int)
        ensures
            self.watery(ax, az) <==> self.lies_at(ax, az, Biome::Ocean) || self.lies_at(
                ax,
                az,
                Biome::Lake,
            ),
            !self.land_beside(ax, az) <==> self.watery(ax - 1, az) && self.watery(ax + 1, az)
                && self.watery(ax, az - 1) && self.watery(ax, az + 1),
    {
    }

    /// A road has no mouth; a river's lies on the side that faces its water. An end at a node
    /// lies in the middle of its cell.
    pub proof fn law_mouths_face_their_water(&self, layer: Layer, e: Endpoint, ax: int, az: int)
        ensures
            e.kind == EndpointKind::Node ==> self.place_of(layer, e, ax, az) == Place::Centre,
            layer == Layer::Roads && (e.kind == EndpointKind::Ocean || e.kind == EndpointKind::Lake)
                ==> self.place_of(layer, e, ax, az) == Place::Centre,
            self.place_of(layer, e, ax, az) matches Place::Side(d) ==> layer != Layer::Roads && (
            e.kind == EndpointKind::Ocean && self.faces(ax, az, d, Biome::Ocean) || e.kind
                == EndpointKind::Lake && self.faces(ax, az, d, Biome::Lake)),
            layer != Layer::Roads && e.kind == EndpointKind::Lake && self.lies_at(
                ax + 1,
                az,
                Biome::Lake,
            ) ==> self.place_of(layer, e, ax, az) == Place::Side(Dir::East),
            layer != Layer::Roads && e.kind == EndpointKind::Ocean && self.lies_at(
                ax + 1,
                az,
                Biome::Ocean,
            ) ==> self.place_of(layer, e, ax, az) == Place::Side(Dir::East),
    {
        if e.kind == EndpointKind::EdgePort {
            let port = crate::atlas::hydro::port_in(self.layer_ports(layer, e.ref_id), e.port_id);
            assert(!(crate::atlas::hydro::port_place(e.ref_id, port) is Side));
        }
    }

    /// A coast is a shore in every view, and so is a cell with a ring; water beside land is
    /// one only on the sublayer. A shore is revealed with the cells on its four sides.
    pub proof fn law_shores_are_revealed(
        &self,
        ringed: Seq<bool>,
        view: ShoreView,
        ax: int,
        az: int,
    )
        requires
            inside(self.size as int, ax, az),
        ensures
            cell_biome(self.cell(ax, az)) == Biome::Coast || ringed[cell_number(
                self.size as int,
                ax,
                az,
            )] ==> self.on_shore(ringed, view, ax, az),
            view == ShoreView::Overlay && self.on_shore(ringed, view, ax, az) ==> cell_biome(
                self.cell(ax, az),
            ) == Biome::Coast || ringed[cell_number(self.size as int, ax, az)],
            view == ShoreView::Sublayer && self.watery(ax, az) && self.land_beside(ax, az)
                ==> self.on_shore(ringed, view, ax, az),
            self.on_shore(ringed, view, ax, az) ==> self.revealed(ringed, view, ax, az)
                && self.revealed(ringed, view, ax - 1, az) && self.revealed(
                ringed,
                view,
                ax + 1,
                az,
            ) && self.revealed(ringed, view, ax, az - 1) && self.revealed(
                ringed,
                view,
                ax,
                az + 1,
            ),
    {
    }
}

/// No water has more samples in a cell than what the cell is tinted by; a lake goes before
/// river and ocean of as many, and the ocean before the river.
pub proof fn law_tints_have_the_most_samples(
    columns: Seq<Option<WaterBody>>,
    kind: WaterBodyKind,
    id: i32,
)
    requires
        tint(columns, kind),
    ensures
        ({
            let n = columns.len();
            let ocean = samples_of(columns, WaterBody::Ocean, n);
            let river = samples_of(columns, WaterBody::River, n);
            let lake = samples_of(columns, WaterBody::Lake { id }, n);
            &&& kind == WaterBodyKind::Ocean ==> river <= ocean
            &&& kind == WaterBodyKind::River ==> ocean < river
            &&& kind matches WaterBodyKind::Lake { lake_id } ==> {
                let ours = samples_of(columns, WaterBody::Lake { id: lake_id }, n);
                ours >= ocean && ours >= river && ours >= lake && ours > 0
            }
            &&& !(kind is Lake) && best_lake(columns, id) ==> lake < ocean || lake < river
        }),
{
    let n = columns.len();
    if kind is Lake {
        let ocean = samples_of(columns, WaterBody::Ocean, n);
        let river = samples_of(columns, WaterBody::River, n);
        if exists|other: i32| #[trigger]
            best_lake(columns, other) && samples_of(columns, lake_body(other), n) >= ocean
                && samples_of(columns, lake_body(other), n) >= river {
            let other = choose|other: i32| #[trigger]
                best_lake(columns, other) && samples_of(columns, lake_body(other), n) >= ocean
                    && samples_of(columns, lake_body(other), n) >= river;
            let mine = samples_of(columns, WaterBody::Lake { id: kind->lake_id }, n);
            let theirs = samples_of(columns, WaterBody::Lake { id: other }, n);
            assert(mine >= theirs);
        }
    }
}

impl<'a> MassifSource<'a> {
    /// The best cell of a block lies in it, may carry a massif and scores as high as any
    /// other that may; a block has none only where no cell may.
    pub proof fn law_block_best_is_best(&self, bx: int, bz: int, k: nat, i: int)
        requires
            self.well_formed(),
            0 <= i < k <= 16,
        ensures
            ({
                let (ax, az) = (bx + i % 4, bz + i / 4);
                let c = cell_number(self.size as int, ax, az);
                inside(self.size as int, ax, az) && self.open_cell(c) ==> self.best_upto(
                    bx,
                    bz,
                    k,
                ) is Some && self.score@[c] <= self.score@[self.best_upto(bx, bz, k)->0]
            }),
            self.best_upto(bx, bz, k) matches Some(c) ==> self.open_cell(c),
        decreases k,
    {
        if i < k - 1 {
            self.law_block_best_is_best(bx, bz, (k - 1) as nat, i);
        } else if k > 1 {
            self.law_block_best_is_best(bx, bz, (k - 1) as nat, 0);
        } else {
            assert(self.best_upto(bx, bz, 0) is None);
        }
    }

    /// A massif stands on dry land from code 155 up, with a relief of 28 at the least, on a
    /// crest.
    pub proof fn law_massifs_stand_high(&self, c: int)
        ensures
            self.open_cell(c) <==> self.land@[c] != 0 && self.lake_id@[c] < 0 && self.elev_code@[c]
                >= 155 && self.relief@[c] >= 28 && self.on_crest@[c],
    {
    }

    /// The cells massifs are tried on come best first, the smaller number first of equals.
    pub proof fn law_candidates_come_best_first(&self, n: nat)
        ensures
            forall|i: int, j: int|
                0 <= i < j < self.row_of(n).len() ==> self.score@[#[trigger] self.row_of(n)[i] as int]
                    >= self.score@[#[trigger] self.row_of(n)[j] as int],
        decreases n,
    {
        if n > 0 {
            self.law_candidates_come_best_first((n - 1) as nat);
            let rest = self.row_of((n - 1) as nat);
            let b = self.blocks();
            match self.best_upto(4 * ((n - 1) % b), 4 * ((n - 1) / b), 16) {
                Some(c) => {
                    self.lemma_row_sorted(rest, c as usize);
                },
                None => {},
            }
        }
    }

    proof fn lemma_row_sorted(&self, row: Seq<usize>, c: usize)
        requires
            forall|i: int, j: int|
                0 <= i < j < row.len() ==> self.score@[#[trigger] row[i] as int]
                    >= self.score@[#[trigger] row[j] as int],
        ensures
            forall|i: int, j: int|
                0 <= i < j < self.row_with(row, c).len() ==> self.score@[#[trigger] self.row_with(
                    row,
                    c,
                )[i] as int] >= self.score@[#[trigger] self.row_with(row, c)[j] as int],
            forall|i: int|
                0 <= i < self.row_with(row, c).len() ==> (#[trigger] self.row_with(row, c)[i] == c
                    || row.contains(self.row_with(row, c)[i])),
        decreases row.len(),
    {
        let out = self.row_with(row, c);
        if row.len() == 0 || !self.beats(c, row.last()) {
            assert forall|i: int| 0 <= i < out.len() implies (#[trigger] out[i] == c
                || row.contains(out[i])) by {
                if i < row.len() {
                    assert(row[i] == out[i]);
                }
            }
            assert forall|i: int, j: int| 0 <= i < j < out.len() implies self.score@[
                #[trigger] out[i] as int] >= self.score@[#[trigger] out[j] as int] by {
                if i < row.len() {
                    assert(out[i] == row[i]);
                    assert(self.score@[row[i] as int] >= self.score@[row[row.len() - 1] as int]);
                }
                if j < row.len() {
                    assert(out[j] == row[j]);
                }
            }
        } else {
            let rest = row.drop_last();
            assert forall|i: int, j: int| 0 <= i < j < rest.len() implies self.score@[
                #[trigger] rest[i] as int] >= self.score@[#[trigger] rest[j] as int] by {
                assert(rest[i] == row[i] && rest[j] == row[j]);
            }
            self.lemma_row_sorted(rest, c);
            let inner = self.row_with(rest, c);
            assert(out == inner.push(row.last()));
            assert forall|i: int| 0 <= i < out.len() implies (#[trigger] out[i] == c
                || row.contains(out[i])) && self.score@[out[i] as int] >= self.score@[
                row.last() as int] by {
                if i < inner.len() {
                    assert(out[i] == inner[i]);
                    if inner[i] != c {
                        assert(rest.contains(inner[i]));
                        let k = choose|k: int| 0 <= k < rest.len() && rest[k] == inner[i];
                        assert(row[k] == out[i]);
                        assert(self.score@[row[k] as int] >= self.score@[row[row.len() - 1] as int]);
                    }
                } else {
                    assert(out[i] == row[row.len() - 1]);
                }
            }
            assert forall|i: int, j: int| 0 <= i < j < out.len() implies self.score@[
                #[trigger] out[i] as int] >= self.score@[#[trigger] out[j] as int] by {
                if j < inner.len() {
                    assert(out[i] == inner[i] && out[j] == inner[j]);
                }
            }
        }
    }
}

} // verus!
