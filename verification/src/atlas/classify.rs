//! Biome classification and climate packing.

use crate::atlas::biomes::Biome;
use crate::atlas::grid::{is_cell, lemma_side, lemma_step, neighbor, side_ok, step};
use crate::atlas::lakes::is_sea;
use crate::atlas::pack::{
    cell_biome_id, cell_elevation, cell_humidity, cell_pop, cell_relief, law_pack_round_trip, pack,
    packed_cell,
};
use vstd::prelude::*;

verus! {

/// The biome of dry land away from the coast. `cold` says that the temperature
/// lies under the tundra line.
pub open spec fn land_biome(elev: int, hum: int, rel: int, cold: bool) -> Biome {
    if elev >= 181 || (elev >= 160 && rel > 28) {
        Biome::Alpine
    } else if cold && elev > 60 {
        Biome::Tundra
    } else if hum < 90 && rel > 10 {
        Biome::Arid
    } else if hum > 170 && elev < 100 {
        Biome::Wetland
    } else if hum > 138 {
        Biome::Forest
    } else {
        Biome::Plains
    }
}

pub fn classify_land(elev: i32, hum: i32, rel: i32, cold: bool) -> (r: Biome)
    ensures
        r == land_biome(elev as int, hum as int, rel as int, cold),
        r == Biome::Forest ==> hum > 138,
        r == Biome::Plains ==> hum <= 138,
        r == Biome::Wetland ==> hum > 170 && elev < 100,
        r == Biome::Arid ==> hum < 90 && rel > 10,
        r == Biome::Tundra ==> cold && 60 < elev < 181,
        r == Biome::Alpine <==> elev >= 181 || (elev >= 160 && rel > 28),
{
    if elev >= 181 || (elev >= 160 && rel > 28) {
        return Biome::Alpine;
    }
    if cold && elev > 60 {
        return Biome::Tundra;
    }
    if hum < 90 && rel > 10 {
        return Biome::Arid;
    }
    if hum > 170 && elev < 100 {
        return Biome::Wetland;
    }
    // Closed canopy is a rainfall question, not a relief one: flat, wet ground
    // grows the deepest timber of all. Plains are what is left in the middle.
    if hum > 138 {
        return Biome::Forest;
    }
    Biome::Plains
}

/// The sea, or the edge of the grid, lies on side `k` of `c`.
pub open spec fn sea_beside(size: int, land: Seq<u8>, lake_id: Seq<i32>, c: int, k: int) -> bool {
    match step(size, c, k) {
        Some(d) => is_sea(land, lake_id, d),
        None => true,
    }
}

/// The sea, or the edge of the grid, lies on some side of `c`.
pub open spec fn seaside(size: int, land: Seq<u8>, lake_id: Seq<i32>, c: int) -> bool {
    exists|k: int| 0 <= k < 4 && #[trigger] sea_beside(size, land, lake_id, c, k)
}

pub fn touches_ocean(cell: usize, size: usize, land: &[u8], lake_id: &[i32]) -> (r: bool)
    requires
        side_ok(size as int),
        is_cell(size as int, cell as int),
        land@.len() == size * size,
        lake_id@.len() == size * size,
    ensures
        r == seaside(size as int, land@, lake_id@, cell as int),
{
    let mut k: usize = 0;
    while k < 4
        invariant
            k <= 4,
            side_ok(size as int),
            is_cell(size as int, cell as int),
            land@.len() == size * size,
            lake_id@.len() == size * size,
            forall|j: int|
                0 <= j < k ==> !#[trigger] sea_beside(size as int, land@, lake_id@, cell as int, j),
        decreases 4 - k,
    {
        proof {
            lemma_step(size as int, cell as int, k as int);
        }
        match neighbor(size, cell, k) {
            None => {
                assert(sea_beside(size as int, land@, lake_id@, cell as int, k as int));
                return true;
            },
            Some(nb) => {
                if land[nb] == 0 && lake_id[nb] < 0 {
                    assert(sea_beside(size as int, land@, lake_id@, cell as int, k as int));
                    return true;
                }
            },
        }
        assert(!sea_beside(size as int, land@, lake_id@, cell as int, k as int));
        k += 1;
    }
    false
}

/// The biome of a cell.
pub open spec fn biome_at(
    size: int,
    land: Seq<u8>,
    elev: Seq<u8>,
    humidity: Seq<u8>,
    relief: Seq<u8>,
    lake_id: Seq<i32>,
    cold: Seq<bool>,
    c: int,
) -> Biome {
    if lake_id[c] >= 0 {
        Biome::Lake
    } else if land[c] == 0 {
        Biome::Ocean
    } else if seaside(size, land, lake_id, c) {
        Biome::Coast
    } else {
        land_biome(elev[c] as int, humidity[c] as int, relief[c] as int, cold[c])
    }
}

/// Water: a lake, or no land.
pub open spec fn under_water(land: Seq<u8>, lake_id: Seq<i32>, c: int) -> bool {
    lake_id[c] >= 0 || land[c] == 0
}

/// Names the biome of every cell and packs its climate. Water is wet through and
/// flat.
#[verifier::loop_isolation(false)]
pub fn classify_and_pack(
    size: usize,
    land: &[u8],
    elev_code: &[u8],
    humidity: &mut Vec<u8>,
    relief: &mut Vec<u8>,
    lake_id: &[i32],
    cold: &[bool],
    cells: &mut Vec<i32>,
)
    requires
        side_ok(size as int),
        land@.len() == size * size,
        elev_code@.len() == size * size,
        old(humidity)@.len() == size * size,
        old(relief)@.len() == size * size,
        lake_id@.len() == size * size,
        cold@.len() == size * size,
        old(cells)@.len() == size * size,
    ensures
        final(humidity)@.len() == size * size,
        final(relief)@.len() == size * size,
        final(cells)@.len() == size * size,
        forall|c: int|
            is_cell(size as int, c) ==> #[trigger] final(humidity)@[c] == if under_water(
                land@,
                lake_id@,
                c,
            ) {
                255
            } else {
                old(humidity)@[c]
            },
        forall|c: int|
            is_cell(size as int, c) ==> #[trigger] final(relief)@[c] == if under_water(
                land@,
                lake_id@,
                c,
            ) {
                0
            } else {
                old(relief)@[c]
            },
        forall|c: int|
            is_cell(size as int, c) ==> #[trigger] final(cells)@[c] == packed_cell(
                elev_code@[c] as int,
                final(humidity)@[c] as int,
                biome_at(
                    size as int,
                    land@,
                    elev_code@,
                    old(humidity)@,
                    old(relief)@,
                    lake_id@,
                    cold@,
                    c,
                ),
                final(relief)@[c] as int,
                0,
            ),
{
    let ghost n = size as int;
    proof {
        lemma_side(n);
    }
    let count: usize = size * size;
    let mut i: usize = 0;
    while i < count
        invariant
            i <= count,
            humidity@.len() == n * n,
            relief@.len() == n * n,
            cells@.len() == n * n,
            forall|c: int|
                is_cell(n, c) ==> #[trigger] humidity@[c] == if c < i && under_water(
                    land@,
                    lake_id@,
                    c,
                ) {
                    255
                } else {
                    old(humidity)@[c]
                },
            forall|c: int|
                is_cell(n, c) ==> #[trigger] relief@[c] == if c < i && under_water(
                    land@,
                    lake_id@,
                    c,
                ) {
                    0
                } else {
                    old(relief)@[c]
                },
            forall|c: int|
                0 <= c < i ==> #[trigger] cells@[c] == packed_cell(
                    elev_code@[c] as int,
                    humidity@[c] as int,
                    biome_at(
                        n,
                        land@,
                        elev_code@,
                        old(humidity)@,
                        old(relief)@,
                        lake_id@,
                        cold@,
                        c,
                    ),
                    relief@[c] as int,
                    0,
                ),
        decreases count - i,
    {
        assert(is_cell(n, i as int));
        let biome: Biome = if lake_id[i] >= 0 {
            humidity[i] = 255;
            relief[i] = 0;
            Biome::Lake
        } else if land[i] != 0 {
            if touches_ocean(i, size, land, lake_id) {
                Biome::Coast
            } else {
                classify_land(
                    elev_code[i] as i32,
                    humidity[i] as i32,
                    relief[i] as i32,
                    cold[i],
                )
            }
        } else {
            humidity[i] = 255;
            relief[i] = 0;
            Biome::Ocean
        };
        cells[i] = pack(elev_code[i] as i32, humidity[i] as i32, biome, relief[i] as i32, 0);
        i += 1;
    }
}

/// What the ground under each biome is like. High ground is alpine, and so is ground from
/// 160 on that is steeper than 28. Below it cold ground above 60 is tundra. Of the rest, land
/// drier than 90 and steeper than 10 is arid, land wetter than 170 below 100 is wetland, and
/// what is left is forest above a humidity of 138 and plains up to it.
pub proof fn law_biomes_have_their_ground(elev: int, hum: int, rel: int, cold: bool)
    ensures
        ({
            let b = land_biome(elev, hum, rel, cold);
            let high = elev >= 181 || (elev >= 160 && rel > 28);
            let frozen = cold && elev > 60;
            &&& b == Biome::Alpine <==> high
            &&& b == Biome::Tundra <==> !high && frozen
            &&& b == Biome::Arid <==> !high && !frozen && hum < 90 && rel > 10
            &&& b == Biome::Wetland <==> !high && !frozen && hum > 170 && elev < 100
            &&& b == Biome::Forest <==> !high && !frozen && 138 < hum && (hum <= 170 || elev >= 100)
            &&& b == Biome::Plains <==> !high && !frozen && hum <= 138 && (hum >= 90 || rel <= 10)
        }),
{
}

/// More rain never makes ground drier: it never turns wetland into forest, forest into
/// plains or plains into arid land, and never changes what is alpine or tundra.
pub proof fn law_rain_never_dries(elev: int, dry: int, wet: int, rel: int, cold: bool)
    requires
        dry <= wet,
    ensures
        ({
            let a = land_biome(elev, dry, rel, cold);
            let b = land_biome(elev, wet, rel, cold);
            &&& a == Biome::Alpine || a == Biome::Tundra ==> b == a
            &&& a == Biome::Plains ==> b != Biome::Arid
            &&& a == Biome::Forest ==> b == Biome::Forest || b == Biome::Wetland
            &&& a == Biome::Wetland ==> b == Biome::Wetland
        }),
{
}

/// What is read back of a classified cell: sea is 0 and lakes are 8, both wet through and
/// flat; land beside the sea or the edge of the grid is coast, 1; other land is forest, 3,
/// only where it is wetter than 138, and plains, 2, only where it is not, wetland, 4, above
/// 170, arid, 5, below 90, and alpine, 6, and tundra, 7, only on high ground. Nobody lives
/// anywhere yet.
pub proof fn law_classified_cells_read_back(
    size: int,
    land: Seq<u8>,
    elev: Seq<u8>,
    humidity: Seq<u8>,
    relief: Seq<u8>,
    lake_id: Seq<i32>,
    cold: Seq<bool>,
    c: int,
    cell: i32,
)
    requires
        cell == packed_cell(
            elev[c] as int,
            if under_water(land, lake_id, c) {
                255
            } else {
                humidity[c] as int
            },
            biome_at(size, land, elev, humidity, relief, lake_id, cold, c),
            if under_water(land, lake_id, c) {
                0
            } else {
                relief[c] as int
            },
            0,
        ),
    ensures
        cell_pop(cell) == 0,
        cell_elevation(cell) == elev[c],
        cell_biome_id(cell) == 8 <==> lake_id[c] >= 0,
        cell_biome_id(cell) == 0 <==> lake_id[c] < 0 && land[c] == 0,
        cell_biome_id(cell) == 0 || cell_biome_id(cell) == 8 ==> cell_humidity(cell) == 255
            && cell_relief(cell) == 0,
        cell_biome_id(cell) != 0 && cell_biome_id(cell) != 8 ==> cell_humidity(cell) == humidity[c]
            && cell_relief(cell) == if relief[c] > 63 {
            63
        } else {
            relief[c] as int
        },
        cell_biome_id(cell) == 1 <==> lake_id[c] < 0 && land[c] != 0 && exists|k: int|
            0 <= k < 4 && match #[trigger] step(size, c, k) {
                Some(d) => land[d] == 0 && lake_id[d] < 0,
                None => true,
            },
        cell_biome_id(cell) == 2 ==> humidity[c] <= 138,
        cell_biome_id(cell) == 3 ==> humidity[c] > 138,
        cell_biome_id(cell) == 4 ==> humidity[c] > 170 && elev[c] < 100,
        cell_biome_id(cell) == 5 ==> humidity[c] < 90 && relief[c] > 10,
        cell_biome_id(cell) == 6 ==> elev[c] >= 160,
        cell_biome_id(cell) == 7 ==> cold[c] && elev[c] > 60,
{
    let wet = under_water(land, lake_id, c);
    law_pack_round_trip(
        elev[c] as int,
        if wet {
            255
        } else {
            humidity[c] as int
        },
        biome_at(size, land, elev, humidity, relief, lake_id, cold, c),
        if wet {
            0
        } else {
            relief[c] as int
        },
        0,
    );
    law_biomes_have_their_ground(elev[c] as int, humidity[c] as int, relief[c] as int, cold[c]);
    if seaside(size, land, lake_id, c) {
        let k = choose|k: int| 0 <= k < 4 && #[trigger] sea_beside(size, land, lake_id, c, k);
        assert(match step(size, c, k) {
            Some(d) => land[d] == 0 && lake_id[d] < 0,
            None => true,
        });
    }
    assert forall|k: int|
        0 <= k < 4 && match #[trigger] step(size, c, k) {
            Some(d) => land[d] == 0 && lake_id[d] < 0,
            None => true,
        } implies seaside(size, land, lake_id, c) by {
        assert(sea_beside(size, land, lake_id, c, k));
    }
}

/// Lakes are lakes and what else is no land is sea. Land is coast exactly where the sea or the
/// edge of the grid lies on one of its sides; a lake beside it makes no coast.
pub proof fn law_water_and_coast(
    size: int,
    land: Seq<u8>,
    elev: Seq<u8>,
    humidity: Seq<u8>,
    relief: Seq<u8>,
    lake_id: Seq<i32>,
    cold: Seq<bool>,
    c: int,
)
    ensures
        ({
            let b = biome_at(size, land, elev, humidity, relief, lake_id, cold, c);
            let dry = land[c] != 0 && lake_id[c] < 0;
            &&& b == Biome::Lake <==> lake_id[c] >= 0
            &&& b == Biome::Ocean <==> land[c] == 0 && lake_id[c] < 0
            &&& b == Biome::Coast <==> dry && (shore_on(size, land, lake_id, c, 0) || shore_on(
                size,
                land,
                lake_id,
                c,
                1,
            ) || shore_on(size, land, lake_id, c, 2) || shore_on(size, land, lake_id, c, 3))
        }),
{
    if seaside(size, land, lake_id, c) {
        let k = choose|k: int| 0 <= k < 4 && #[trigger] sea_beside(size, land, lake_id, c, k);
        assert(shore_on(size, land, lake_id, c, k));
    }
    if shore_on(size, land, lake_id, c, 0) {
        assert(sea_beside(size, land, lake_id, c, 0));
    }
    if shore_on(size, land, lake_id, c, 1) {
        assert(sea_beside(size, land, lake_id, c, 1));
    }
    if shore_on(size, land, lake_id, c, 2) {
        assert(sea_beside(size, land, lake_id, c, 2));
    }
    if shore_on(size, land, lake_id, c, 3) {
        assert(sea_beside(size, land, lake_id, c, 3));
    }
}

/// Side `k` of a cell leads off the grid, or to a cell that is neither land nor lake.
pub open spec fn shore_on(size: int, land: Seq<u8>, lake_id: Seq<i32>, c: int, k: int) -> bool {
    let d = step(size, c, k);
    d is None || (land[d->0] == 0 && lake_id[d->0] < 0)
}

} // verus!
