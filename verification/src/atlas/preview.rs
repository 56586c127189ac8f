//! Rasters for the map viewer: four bytes to the cell.

use crate::atlas::biomes::Biome;
use crate::atlas::pack::{
    biome, cell_biome, cell_biome_id, cell_elevation, cell_valid, elevation, lemma_cell_biome,
};
use vstd::prelude::*;

verus! {

/// `a + b`, held at 255.
pub open spec fn add_held(a: int, b: int) -> u8 {
    if a + b > 255 {
        255
    } else {
        (a + b) as u8
    }
}

/// `a - b`, held at 0.
pub open spec fn sub_held(a: int, b: int) -> u8 {
    if a - b < 0 {
        0
    } else {
        (a - b) as u8
    }
}

/// The colour of a cell on the elevation map: the sea lighter the shallower, lakes all
/// alike, land lighter the higher.
pub open spec fn elevation_color(cell: i32) -> (u8, u8, u8) {
    let e = cell_elevation(cell) as int;
    if cell_biome(cell) == Biome::Ocean {
        (20, 40, add_held(70, e / 2))
    } else if cell_biome(cell) == Biome::Lake {
        (40, 90, 140)
    } else {
        (e as u8, sub_held(e, 20), sub_held(e, 40))
    }
}

/// Whether four bytes from `at` on are an opaque colour.
pub open spec fn painted(out: Seq<u8>, at: int, rgb: (u8, u8, u8)) -> bool {
    out[at] == rgb.0 && out[at + 1] == rgb.1 && out[at + 2] == rgb.2 && out[at + 3] == 255
}

fn push_color(out: &mut Vec<u8>, rgb: (u8, u8, u8))
    ensures
        final(out)@ == old(out)@ + seq![rgb.0, rgb.1, rgb.2, 255u8],
{
    out.push(rgb.0);
    out.push(rgb.1);
    out.push(rgb.2);
    out.push(255);
    assert(out@ =~= old(out)@ + seq![rgb.0, rgb.1, rgb.2, 255u8]);
}

fn color_by_height(cell: i32) -> (r: (u8, u8, u8))
    requires
        cell_valid(cell),
    ensures
        r == elevation_color(cell),
{
    let e: u8 = elevation(cell) as u8;
    let b: Biome = biome(cell);
    proof {
        lemma_cell_biome(cell);
    }
    if b == Biome::Ocean {
        let sum: u16 = 70 + (e as u16) / 2;
        let blue: u8 = if sum > 255 {
            255
        } else {
            sum as u8
        };
        (20, 40, blue)
    } else if b == Biome::Lake {
        (40, 90, 140)
    } else {
        let g: u8 = if e < 20 {
            0
        } else {
            e - 20
        };
        let bl: u8 = if e < 40 {
            0
        } else {
            e - 40
        };
        (e, g, bl)
    }
}

/// The elevation map.
pub fn elevation_rgba(cells: &[i32]) -> (out: Vec<u8>)
    requires
        forall|c: int| 0 <= c < cells@.len() ==> cell_valid(#[trigger] cells@[c]),
        cells@.len() * 4 <= usize::MAX,
    ensures
        out@.len() == cells@.len() * 4,
        forall|c: int|
            0 <= c < cells@.len() ==> painted(out@, c * 4, elevation_color(#[trigger] cells@[c])),
{
    let mut out: Vec<u8> = Vec::new();
    let mut i: usize = 0;
    while i < cells.len()
        invariant
            i <= cells@.len(),
            forall|c: int| 0 <= c < cells@.len() ==> cell_valid(#[trigger] cells@[c]),
            out@.len() == i * 4,
            forall|c: int|
                0 <= c < i ==> painted(out@, c * 4, elevation_color(#[trigger] cells@[c])),
        decreases cells@.len() - i,
    {
        let rgb: (u8, u8, u8) = color_by_height(cells[i]);
        push_color(&mut out, rgb);
        i += 1;
    }
    out
}

/// The biome map, in the colours of a palette that has one for every biome.
pub fn biome_rgba(cells: &[i32], palette: &[(u8, u8, u8)]) -> (out: Vec<u8>)
    requires
        forall|c: int| 0 <= c < cells@.len() ==> cell_valid(#[trigger] cells@[c]),
        forall|c: int|
            0 <= c < cells@.len() ==> 0 <= cell_biome_id(#[trigger] cells@[c]) < palette@.len(),
        cells@.len() * 4 <= usize::MAX,
    ensures
        out@.len() == cells@.len() * 4,
        forall|c: int|
            0 <= c < cells@.len() ==> painted(
                out@,
                c * 4,
                palette@[cell_biome_id(#[trigger] cells@[c]) as int],
            ),
{
    let mut out: Vec<u8> = Vec::new();
    let mut i: usize = 0;
    while i < cells.len()
        invariant
            i <= cells@.len(),
            forall|c: int| 0 <= c < cells@.len() ==> cell_valid(#[trigger] cells@[c]),
            forall|c: int|
                0 <= c < cells@.len() ==> 0 <= cell_biome_id(#[trigger] cells@[c])
                    < palette@.len(),
            out@.len() == i * 4,
            forall|c: int|
                0 <= c < i ==> painted(
                    out@,
                    c * 4,
                    palette@[cell_biome_id(#[trigger] cells@[c]) as int],
                ),
        decreases cells@.len() - i,
    {
        let b: Biome = biome(cells[i]);
        let id: usize = b.id() as usize;
        proof {
            lemma_cell_biome(cells@[i as int]);
        }
        let rgb: (u8, u8, u8) = palette[id];
        push_color(&mut out, rgb);
        i += 1;
    }
    out
}

/// On the elevation map higher land is never the darker, nor is shallower sea; land is grey
/// that leans to red, the sea is blue, and lakes look alike whatever their height.
pub proof fn law_higher_is_lighter(low: i32, high: i32)
    requires
        0 <= cell_elevation(low) <= cell_elevation(high) <= 255,
    ensures
        ({
            let (a, b) = (elevation_color(low), elevation_color(high));
            let sea = cell_biome(low) == Biome::Ocean;
            let lake = cell_biome(low) == Biome::Lake;
            &&& cell_biome(low) == cell_biome(high) ==> a.0 <= b.0 && a.1 <= b.1 && a.2 <= b.2
            &&& cell_biome(low) == cell_biome(high) && lake ==> a == b
            &&& !sea && !lake ==> a.0 == cell_elevation(low) && a.0 >= a.1 && a.1 >= a.2
            &&& sea || lake ==> a.0 < a.1 && a.1 < a.2
        }),
{
}

} // verus!
