//! Atlas landcover ids.

use vstd::prelude::*;

verus! {

#[derive(Debug, Clone, Copy, PartialEq, Eq, Structural, Hash)]
pub enum Biome {
    Ocean,
    Coast,
    Plains,
    Forest,
    Wetland,
    Arid,
    Alpine,
    Tundra,
    Lake,
}

/// The number a biome is stored under.
pub open spec fn biome_number(b: Biome) -> int {
    match b {
        Biome::Ocean => 0,
        Biome::Coast => 1,
        Biome::Plains => 2,
        Biome::Forest => 3,
        Biome::Wetland => 4,
        Biome::Arid => 5,
        Biome::Alpine => 6,
        Biome::Tundra => 7,
        Biome::Lake => 8,
    }
}

/// Open water: sea or lake.
pub open spec fn is_water_biome(b: Biome) -> bool {
    b == Biome::Ocean || b == Biome::Lake
}

impl Biome {
    /// The number this biome is stored under.
    pub fn id(self) -> (r: i32)
        ensures
            r == biome_number(self),
            0 <= r <= 8,
    {
        match self {
            Biome::Ocean => 0,
            Biome::Coast => 1,
            Biome::Plains => 2,
            Biome::Forest => 3,
            Biome::Wetland => 4,
            Biome::Arid => 5,
            Biome::Alpine => 6,
            Biome::Tundra => 7,
            Biome::Lake => 8,
        }
    }

    /// The biome stored under `id`.
    pub fn from_id(id: i32) -> (r: Self)
        requires
            0 <= id <= 8,
        ensures
            biome_number(r) == id,
    {
        match id {
            0 => Biome::Ocean,
            1 => Biome::Coast,
            2 => Biome::Plains,
            3 => Biome::Forest,
            4 => Biome::Wetland,
            5 => Biome::Arid,
            6 => Biome::Alpine,
            7 => Biome::Tundra,
            _ => Biome::Lake,
        }
    }

    /// The name of a biome.
    pub open spec fn name_text(self) -> Seq<char> {
        match self {
            Biome::Ocean => "ocean"@,
            Biome::Coast => "coast"@,
            Biome::Plains => "plains"@,
            Biome::Forest => "forest"@,
            Biome::Wetland => "wetland"@,
            Biome::Arid => "arid"@,
            Biome::Alpine => "alpine"@,
            Biome::Tundra => "tundra"@,
            Biome::Lake => "lake"@,
        }
    }

    pub fn name(self) -> (r: &'static str)
        ensures
            r@ == self.name_text(),    {
        match self {
            Biome::Ocean => "ocean",
            Biome::Coast => "coast",
            Biome::Plains => "plains",
            Biome::Forest => "forest",
            Biome::Wetland => "wetland",
            Biome::Arid => "arid",
            Biome::Alpine => "alpine",
            Biome::Tundra => "tundra",
            Biome::Lake => "lake",
        }
    }
}

pub fn is_water(biome: Biome) -> (r: bool)
    ensures
        r == is_water_biome(biome),
{
    matches!(biome, Biome::Ocean | Biome::Lake)
}

pub fn is_land(biome: Biome) -> (r: bool)
    ensures
        r == !is_water_biome(biome),
{
    !is_water(biome)
}

/// No two biomes share a number.
pub proof fn law_biome_numbers_distinct(a: Biome, b: Biome)
    ensures
        biome_number(a) == biome_number(b) ==> a == b,
{
}

} // verus!
