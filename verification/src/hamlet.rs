//! The colours that a hamlet's plan is drawn in.

use crate::text::str_eq;
use vstd::prelude::*;

verus! {

/// A colour by its red, green and blue parts.
#[derive(Clone, Copy, Debug, PartialEq, Eq, Structural)]
pub struct Rgb {
    pub r: u8,
    pub g: u8,
    pub b: u8,
}

/// The cells and storeys of a dwelling.
#[derive(Clone, Copy, Debug, PartialEq, Eq, Structural)]
pub struct Dwelling {
    pub cells_x: u8,
    pub cells_z: u8,
    pub storeys: u8,
}

pub open spec fn rgb(r: u8, g: u8, b: u8) -> Rgb {
    Rgb { r, g, b }
}

/// The colour of a building of the catalogue.
pub open spec fn catalog_rgb(id: Seq<char>) -> Rgb {
    if id == "Well"@ {
        rgb(120, 180, 220)
    } else if id == "Inn"@ {
        rgb(180, 120, 90)
    } else if id == "Blacksmith"@ {
        rgb(140, 140, 150)
    } else if id == "Mill"@ || id == "Sawmill"@ {
        rgb(160, 130, 90)
    } else if id == "Stable"@ {
        rgb(150, 110, 70)
    } else if id == "Bell_Tower"@ {
        rgb(200, 180, 120)
    } else if id == "Gazebo"@ {
        rgb(100, 160, 100)
    } else {
        rgb(190, 150, 110)
    }
}

pub fn catalog_color(id: &str) -> (r: Rgb)
    ensures
        r == catalog_rgb(id@),
{
    if str_eq(id, "Well") {
        Rgb { r: 120, g: 180, b: 220 }
    } else if str_eq(id, "Inn") {
        Rgb { r: 180, g: 120, b: 90 }
    } else if str_eq(id, "Blacksmith") {
        Rgb { r: 140, g: 140, b: 150 }
    } else if str_eq(id, "Mill") || str_eq(id, "Sawmill") {
        Rgb { r: 160, g: 130, b: 90 }
    } else if str_eq(id, "Stable") {
        Rgb { r: 150, g: 110, b: 70 }
    } else if str_eq(id, "Bell_Tower") {
        Rgb { r: 200, g: 180, b: 120 }
    } else if str_eq(id, "Gazebo") {
        Rgb { r: 100, g: 160, b: 100 }
    } else {
        Rgb { r: 190, g: 150, b: 110 }
    }
}

/// The colour of a dwelling: darker the more ground it covers, and with a second storey.
pub open spec fn dwelling_rgb(d: Dwelling) -> Rgb {
    let area = d.cells_x * d.cells_z;
    let base = if area <= 6 {
        rgb(196, 168, 120)
    } else if area <= 12 {
        rgb(178, 142, 104)
    } else {
        rgb(150, 118, 88)
    };
    if d.storeys >= 2 {
        rgb((base.r - 24) as u8, (base.g - 18) as u8, (base.b - 12) as u8)
    } else {
        base
    }
}

/// The colour of a house: that of its place in the catalogue if it has one, else that of
/// the dwelling it is.
pub fn house_color(catalog_id: &str, dwelling: Option<Dwelling>) -> (r: Rgb)
    ensures
        r == if catalog_id@.len() > 0 {
            catalog_rgb(catalog_id@)
        } else {
            match dwelling {
                Some(d) => dwelling_rgb(d),
                None => rgb(190, 150, 110),
            }
        },
{
    if !str_eq(catalog_id, "") {
        proof {
            reveal_strlit("");
            if catalog_id@.len() == 0 {
                assert(catalog_id@ =~= ""@);
            }
        }
        return catalog_color(catalog_id);
    }
    proof {
        reveal_strlit("");
    }
    match dwelling {
        None => Rgb { r: 190, g: 150, b: 110 },
        Some(d) => {
            proof {
                assert(d.cells_x * d.cells_z <= 255 * 255) by (nonlinear_arith)
                    requires
                        0 <= d.cells_x <= 255,
                        0 <= d.cells_z <= 255,
                ;
                assert(0 <= d.cells_x * d.cells_z) by (nonlinear_arith)
                    requires
                        0 <= d.cells_x,
                        0 <= d.cells_z,
                ;
            }
            let area: u16 = d.cells_x as u16 * d.cells_z as u16;
            let base: Rgb = if area <= 6 {
                Rgb { r: 196, g: 168, b: 120 }
            } else if area <= 12 {
                Rgb { r: 178, g: 142, b: 104 }
            } else {
                Rgb { r: 150, g: 118, b: 88 }
            };
            if d.storeys >= 2 {
                Rgb { r: base.r - 24, g: base.g - 18, b: base.b - 12 }
            } else {
                base
            }
        },
    }
}

/// A dwelling on more ground is never the lighter, nor is one with a second storey; two of as
/// many storeys that cover as much ground look alike.
pub proof fn law_larger_dwellings_are_darker(small: Dwelling, large: Dwelling)
    requires
        small.cells_x * small.cells_z <= large.cells_x * large.cells_z,
        small.storeys <= large.storeys,
    ensures
        dwelling_rgb(large).r <= dwelling_rgb(small).r,
        dwelling_rgb(large).g <= dwelling_rgb(small).g,
        dwelling_rgb(large).b <= dwelling_rgb(small).b,
        small.cells_x * small.cells_z <= 6 && large.cells_x * large.cells_z > 6 ==> dwelling_rgb(
            large,
        ).r < dwelling_rgb(small).r,
        small.cells_x * small.cells_z <= 12 && large.cells_x * large.cells_z > 12 ==> dwelling_rgb(
            large,
        ).r < dwelling_rgb(small).r,
        small.storeys < 2 && large.storeys >= 2 ==> dwelling_rgb(large).r + 24 <= dwelling_rgb(
            small,
        ).r,
{
}

} // verus!
