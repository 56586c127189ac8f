//! Consideration colours: how a mob measures up to the player by level.

use vstd::prelude::*;

verus! {

/// The band of a mob relative to the player.
#[derive(Clone, Copy, Debug, PartialEq, Eq, Structural)]
pub enum ConBand {
    Grey,
    Green,
    Blue,
    White,
    Yellow,
    Orange,
    Red,
}

/// The band of a mob that is `delta` levels above the player.
pub open spec fn band_of(delta: int) -> ConBand {
    if delta <= -6 {
        ConBand::Grey
    } else if delta <= -3 {
        ConBand::Green
    } else if delta <= -1 {
        ConBand::Blue
    } else if delta == 0 {
        ConBand::White
    } else if delta <= 2 {
        ConBand::Yellow
    } else if delta <= 4 {
        ConBand::Orange
    } else {
        ConBand::Red
    }
}

/// How dangerous a band is, from grey at 0 to red at 6.
pub open spec fn band_rank(band: ConBand) -> int {
    match band {
        ConBand::Grey => 0,
        ConBand::Green => 1,
        ConBand::Blue => 2,
        ConBand::White => 3,
        ConBand::Yellow => 4,
        ConBand::Orange => 5,
        ConBand::Red => 6,
    }
}

pub open spec fn band_name(band: ConBand) -> Seq<char> {
    match band {
        ConBand::Grey => "grey"@,
        ConBand::Green => "green"@,
        ConBand::Blue => "blue"@,
        ConBand::White => "white"@,
        ConBand::Yellow => "yellow"@,
        ConBand::Orange => "orange"@,
        ConBand::Red => "red"@,
    }
}

pub open spec fn band_rgb(band: ConBand) -> (u8, u8, u8) {
    match band {
        ConBand::Grey => (140, 140, 140),
        ConBand::Green => (64, 180, 64),
        ConBand::Blue => (80, 140, 220),
        ConBand::White => (235, 235, 235),
        ConBand::Yellow => (230, 210, 64),
        ConBand::Orange => (230, 140, 40),
        ConBand::Red => (220, 48, 48),
    }
}

impl ConBand {
    pub fn as_str(self) -> (r: &'static str)
        ensures
            r@ == band_name(self),
    {
        match self {
            ConBand::Grey => "grey",
            ConBand::Green => "green",
            ConBand::Blue => "blue",
            ConBand::White => "white",
            ConBand::Yellow => "yellow",
            ConBand::Orange => "orange",
            ConBand::Red => "red",
        }
    }

    /// The opaque colour of HUD text and nameplates.
    pub fn rgb(self) -> (r: (u8, u8, u8))
        ensures
            r == band_rgb(self),
    {
        match self {
            ConBand::Grey => (140, 140, 140),
            ConBand::Green => (64, 180, 64),
            ConBand::Blue => (80, 140, 220),
            ConBand::White => (235, 235, 235),
            ConBand::Yellow => (230, 210, 64),
            ConBand::Orange => (230, 140, 40),
            ConBand::Red => (220, 48, 48),
        }
    }
}

/// The band of a mob by the difference of the two levels.
pub fn con_band(player_level: i32, mob_level: i32) -> (r: ConBand)
    ensures
        r == band_of(mob_level - player_level),
{
    let delta: i64 = mob_level as i64 - player_level as i64;
    if delta <= -6 {
        ConBand::Grey
    } else if delta <= -3 {
        ConBand::Green
    } else if delta <= -1 {
        ConBand::Blue
    } else if delta == 0 {
        ConBand::White
    } else if delta <= 2 {
        ConBand::Yellow
    } else if delta <= 4 {
        ConBand::Orange
    } else {
        ConBand::Red
    }
}

/// A mob of a higher level is never in a milder band.
pub proof fn law_bands_rise_with_level(a: int, b: int)
    requires
        a <= b,
    ensures
        band_rank(band_of(a)) <= band_rank(band_of(b)),
{
}

} // verus!
