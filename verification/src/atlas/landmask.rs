//! The planes a continent starts from.

use vstd::prelude::*;

verus! {

/// Land flag, elevation code, humidity and relief of every cell.
pub struct LandmaskPlanes {
    pub land: Vec<u8>,
    pub elev_code: Vec<u8>,
    pub humidity: Vec<u8>,
    pub relief: Vec<u8>,
}

/// The width of the ocean collar: 48 cells to the thousand, at least 6.
pub open spec fn collar_of(size: int) -> int {
    if 48 * size / 1000 > 6 {
        48 * size / 1000
    } else {
        6
    }
}

pub fn collar_cells(size: usize) -> (r: i32)
    requires
        48 * size <= i32::MAX,
    ensures
        r == collar_of(size as int),
        r >= 6,
{
    let wide: i32 = (48 * size) as i32 / 1000;
    if wide > 6 {
        wide
    } else {
        6
    }
}

/// A wider continent never has a narrower collar.
pub proof fn law_collar_never_narrows(size: int, wider: int)
    requires
        0 <= size <= wider,
    ensures
        6 <= collar_of(size) <= collar_of(wider),
{
}

/// How many cells `(ax, az)` lies from the nearest side of the grid.
pub open spec fn edge_distance(size: int, ax: int, az: int) -> int {
    let x = if ax < size - 1 - ax {
        ax
    } else {
        size - 1 - ax
    };
    let z = if az < size - 1 - az {
        az
    } else {
        size - 1 - az
    };
    if x < z {
        x
    } else {
        z
    }
}

pub fn cells_to_edge(ax: i32, az: i32, size: usize) -> (r: i32)
    requires
        0 < size <= i32::MAX,
        i32::MIN <= size - 1 - ax <= i32::MAX,
        i32::MIN <= size - 1 - az <= i32::MAX,
    ensures
        r == edge_distance(size as int, ax as int, az as int),
{
    let side: i32 = size as i32;
    let x: i32 = if ax < side - 1 - ax {
        ax
    } else {
        side - 1 - ax
    };
    let z: i32 = if az < side - 1 - az {
        az
    } else {
        side - 1 - az
    };
    if x < z {
        x
    } else {
        z
    }
}

} // verus!
