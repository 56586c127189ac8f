//! Continuity enums and edge-key helpers.

use vstd::prelude::*;

verus! {

#[derive(Debug, Clone, Copy, PartialEq, Eq, Structural, Hash)]
pub enum Kind {
    River,
    Road,
}

/// The four sides of a cell, in the order in which neighbours are visited.
#[derive(Debug, Clone, Copy, PartialEq, Eq, Structural, Hash)]
pub enum Dir {
    East,
    South,
    West,
    North,
}

/// The number a direction is stored under.
pub open spec fn dir_number(d: Dir) -> int {
    match d {
        Dir::East => 0,
        Dir::South => 1,
        Dir::West => 2,
        Dir::North => 3,
    }
}

pub open spec fn dir_opposite(d: Dir) -> Dir {
    match d {
        Dir::East => Dir::West,
        Dir::West => Dir::East,
        Dir::South => Dir::North,
        Dir::North => Dir::South,
    }
}

/// The step a direction takes, as a change of column and of row.
pub open spec fn dir_delta(d: Dir) -> (int, int) {
    match d {
        Dir::East => (1, 0),
        Dir::West => (-1, 0),
        Dir::South => (0, 1),
        Dir::North => (0, -1),
    }
}

/// The direction stored under `n`.
pub open spec fn dir_of(n: int) -> Dir {
    if n == 0 {
        Dir::East
    } else if n == 1 {
        Dir::South
    } else if n == 2 {
        Dir::West
    } else {
        Dir::North
    }
}

impl Dir {
    pub fn opposite(self) -> (r: Self)
        ensures
            r == dir_opposite(self),
    {
        match self {
            Dir::East => Dir::West,
            Dir::West => Dir::East,
            Dir::South => Dir::North,
            Dir::North => Dir::South,
        }
    }

    pub fn delta(self) -> (r: (i32, i32))
        ensures
            r.0 == dir_delta(self).0,
            r.1 == dir_delta(self).1,
    {
        match self {
            Dir::East => (1, 0),
            Dir::West => (-1, 0),
            Dir::South => (0, 1),
            Dir::North => (0, -1),
        }
    }

    /// The number this direction is stored under.
    pub fn number(self) -> (r: u8)
        ensures
            r == dir_number(self),
            r < 4,
    {
        match self {
            Dir::East => 0,
            Dir::South => 1,
            Dir::West => 2,
            Dir::North => 3,
        }
    }

    pub fn from_u8(v: u8) -> (r: Self)
        requires
            v < 4,
        ensures
            dir_number(r) == v,
            r == dir_of(v as int),
    {
        match v {
            0 => Dir::East,
            1 => Dir::South,
            2 => Dir::West,
            _ => Dir::North,
        }
    }
}

#[derive(Debug, Clone, Copy, PartialEq, Eq, Structural, Hash)]
pub enum EndpointKind {
    EdgePort,
    Ocean,
    Lake,
    Node,
}

#[derive(Debug, Clone, Copy, PartialEq, Eq, Structural, Hash)]
pub enum NodeKind {
    CoastalGate,
    LakeShore,
    Pass,
    Landmark,
    Settlement,
    ClaimReserved,
    Dungeon,
}

pub open spec fn node_kind_number(k: NodeKind) -> int {
    match k {
        NodeKind::CoastalGate => 0,
        NodeKind::LakeShore => 1,
        NodeKind::Pass => 2,
        NodeKind::Landmark => 3,
        NodeKind::Settlement => 4,
        NodeKind::ClaimReserved => 5,
        NodeKind::Dungeon => 6,
    }
}

impl NodeKind {
    pub fn number(self) -> (r: u8)
        ensures
            r == node_kind_number(self),
    {
        match self {
            NodeKind::CoastalGate => 0,
            NodeKind::LakeShore => 1,
            NodeKind::Pass => 2,
            NodeKind::Landmark => 3,
            NodeKind::Settlement => 4,
            NodeKind::ClaimReserved => 5,
            NodeKind::Dungeon => 6,
        }
    }
}

#[derive(Debug, Clone, Copy, PartialEq, Eq, Structural, Hash)]
pub enum RoadClass {
    Primary,
    Secondary,
    Trail,
}

/// The number a road class is stored under; lower is more important.
pub open spec fn road_class_number(c: RoadClass) -> int {
    match c {
        RoadClass::Primary => 0,
        RoadClass::Secondary => 1,
        RoadClass::Trail => 2,
    }
}

impl RoadClass {
    pub fn number(self) -> (r: i32)
        ensures
            r == road_class_number(self),
    {
        match self {
            RoadClass::Primary => 0,
            RoadClass::Secondary => 1,
            RoadClass::Trail => 2,
        }
    }
}

/// The cell and side that own the edge on side `dir` of cell `(ax, az)`: the
/// west cell of a vertical edge, the north cell of a horizontal one.
pub open spec fn edge_holder(ax: int, az: int, dir: Dir) -> (int, int, Dir) {
    match dir {
        Dir::West => (ax - 1, az, Dir::East),
        Dir::North => (ax, az - 1, Dir::South),
        _ => (ax, az, dir),
    }
}

/// Twelve bits of column, twelve bits of row, then the side.
pub open spec fn pack_edge(ax: i32, az: i32, dir: Dir) -> i32 {
    ax | (az << 12) | ((dir_number(dir) as i32) << 24)
}

/// The key of the edge on side `dir` of cell `(ax, az)`.
pub open spec fn edge_key_of(ax: int, az: int, dir: Dir) -> i32 {
    let holder = edge_holder(ax, az, dir);
    pack_edge(holder.0 as i32, holder.1 as i32, holder.2)
}

/// Canonical edge key owned by the west cell (EAST) or north cell (SOUTH).
pub fn edge_key(ax: i32, az: i32, dir: Dir, size: usize) -> (r: i32)
    requires
        0 <= edge_holder(ax as int, az as int, dir).0 < size,
        0 <= edge_holder(ax as int, az as int, dir).1 < size,
    ensures
        r == edge_key_of(ax as int, az as int, dir),
{
    match dir {
        Dir::West => (ax - 1) | (az << 12) | (0i32 << 24),
        Dir::North => ax | ((az - 1) << 12) | (1i32 << 24),
        Dir::East => ax | (az << 12) | (0i32 << 24),
        Dir::South => ax | (az << 12) | (1i32 << 24),
    }
}

/// The cell and side that a key names. The side's bits hold a direction.
pub fn edge_owner(key: i32) -> (r: (i32, i32, Dir))
    requires
        (key >> 24) & 0xF < 4,
    ensures
        r.0 == key & 0xFFF,
        r.1 == (key >> 12) & 0xFFF,
        dir_number(r.2) == (key >> 24) & 0xF,
{
    let ax: i32 = key & 0xFFF;
    let az: i32 = (key >> 12) & 0xFFF;
    let side: i32 = (key >> 24) & 0xF;
    assert(side >= 0) by (bit_vector)
        requires
            side == (key >> 24) & 0xFi32,
    ;
    let dir: Dir = Dir::from_u8(side as u8);
    (ax, az, dir)
}

pub fn opposite_dir(dir: Dir) -> (r: Dir)
    ensures
        r == dir_opposite(dir),
{
    dir.opposite()
}

/// Turning round twice changes nothing.
pub proof fn law_opposite_twice(d: Dir)
    ensures
        dir_opposite(dir_opposite(d)) == d,
{
}

/// A step and the step back cancel.
pub proof fn law_opposite_step_cancels(d: Dir)
    ensures
        dir_delta(d).0 + dir_delta(dir_opposite(d)).0 == 0,
        dir_delta(d).1 + dir_delta(dir_opposite(d)).1 == 0,
{
}

/// The two cells that share an edge give it one key.
pub proof fn law_edge_shared(ax: int, az: int, dir: Dir)
    ensures
        edge_key_of(ax, az, dir) == edge_key_of(
            ax + dir_delta(dir).0,
            az + dir_delta(dir).1,
            dir_opposite(dir),
        ),
{
}

/// The owner of an edge is read back from its key, for cells below 4096.
pub proof fn law_edge_owner_of_key(ax: i32, az: i32, dir: Dir)
    requires
        0 <= ax < 4096,
        0 <= az < 4096,
        dir == Dir::East || dir == Dir::South,
    ensures
        edge_key_of(ax as int, az as int, dir) & 0xFFF == ax,
        (edge_key_of(ax as int, az as int, dir) >> 12) & 0xFFF == az,
        (edge_key_of(ax as int, az as int, dir) >> 24) & 0xF == dir_number(dir),
{
    let d: i32 = dir_number(dir) as i32;
    let key: i32 = ax | (az << 12) | (d << 24);
    assert(key & 0xFFF == ax && (key >> 12) & 0xFFF == az && (key >> 24) & 0xF == d)
        by (bit_vector)
        requires
            key == ax | (az << 12) | (d << 24),
            0 <= ax < 4096,
            0 <= az < 4096,
            0 <= d < 2,
    ;
}

/// Different edges of a continent of at most 4096 cells a side have different
/// keys.
pub proof fn law_edge_keys_distinct(
    ax: i32,
    az: i32,
    dir: Dir,
    bx: i32,
    bz: i32,
    bdir: Dir,
)
    requires
        0 <= ax < 4096,
        0 <= az < 4096,
        0 <= bx < 4096,
        0 <= bz < 4096,
        dir == Dir::East || dir == Dir::South,
        bdir == Dir::East || bdir == Dir::South,
        edge_key_of(ax as int, az as int, dir) == edge_key_of(bx as int, bz as int, bdir),
    ensures
        ax == bx,
        az == bz,
        dir == bdir,
{
    law_edge_owner_of_key(ax, az, dir);
    law_edge_owner_of_key(bx, bz, bdir);
}

} // verus!
