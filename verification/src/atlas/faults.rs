//! What can be wrong with an atlas, and how it is put in words.

use crate::atlas::features::Kind;
use crate::text::{render, rendered, Piece};
use crate::rounding::{
    in_grains, law_rounding_keeps_side, law_rounding_stays_close, lemma_grain_of, lemma_ratio,
    ratio_to, round_ratio, round_single, single, SINGLE,
};
use vstd::arithmetic::power2::lemma2_to64;
use vstd::prelude::*;

verus! {

/// An invariant that an atlas breaks.
#[derive(Debug, Clone, Copy, PartialEq, Eq, Structural)]
pub enum AtlasFault {
    SchemaMismatch,
    CellsSizeWrong,
    TooLittleLand { land: usize },
    CollarWeak { ocean: usize, border: usize },
    NoLakes,
    NoCoastRings,
    LakeOutlinesMissing,
    RiverTooShort { id: i32 },
    LakeWithoutSpill { id: i32 },
    LakeNotContiguous { id: i32 },
    LakeTouchesOcean { id: i32 },
    InlandOcean { ax: i32, az: i32 },
    EastPortsDisagree { kind: Kind, ax: i32, az: i32, here: usize, there: usize },
    SouthPortsDisagree { kind: Kind, ax: i32, az: i32, here: usize, there: usize },
    PortPayloadMismatch { ax: i32, az: i32, port: usize },
    DanglingPort { key: i32, id: i32 },
    RiverVanishes { ax: i32, az: i32 },
    RiverClimbs { ax: i32, az: i32, from: i32, down_ax: i32, down_az: i32, to: i32 },
    NoNodes,
    RoadsNotConnected { landmass: i32, connected: usize, of: usize },
    TooFewNodes { nodes: usize, min: usize },
    PrimaryEdgesStarved { edges: usize, need: usize },
    RoadCellsStarved { cells: usize, min: usize },
    ThroughLinksStarved { cells: usize },
    PopulationOnWater { cells: usize },
    NoPopulatedLand,
    PopulationNotSparse { occupied: usize, land: usize },
}

/// A part of a whole as a share, in parts of 2^64, rounded to 24 significant bits as the
/// counts themselves are.
#[verifier::opaque]
pub open spec fn share_of(part: int, whole: int) -> int {
    ratio_to(single(part) * 0x1_0000_0000_0000_0000, single(whole), SINGLE as int)
}

/// A share of 0.7.
pub const SHARE_ENOUGH: u128 = 12912720631694360576;

/// A share of a half.
pub const SHARE_HALF: u128 = 0x8000_0000_0000_0000;

/// Counts that a share is taken of.
pub open spec fn counted(part: int, whole: int) -> bool {
    0 <= part <= whole && 0 < whole <= 0x7fff_ffff
}

proof fn lemma_counts(part: int, whole: int)
    requires
        counted(part, whole),
    ensures
        0 <= single(part) <= 0x8000_0000,
        0 < single(whole) <= 0x8000_0000,
        0 <= single(100 * single(part)) <= 300_000_000_000,
{
    let top = SINGLE as int;
    lemma2_to64();
    law_rounding_stays_close(part, top);
    law_rounding_stays_close(whole, top);
    law_rounding_keeps_side(part, 1, 31, top);
    law_rounding_keeps_side(whole, 1, 31, top);
    law_rounding_keeps_side(whole, 1, 0, top);
    law_rounding_stays_close(100 * single(part), top);
}

pub(crate) fn share(part: usize, whole: usize) -> (r: u128)
    requires
        counted(part as int, whole as int),
    ensures
        r == share_of(part as int, whole as int),
{
    proof {
        reveal(share_of);
        lemma_counts(part as int, whole as int);
    }
    let a: i64 = round_single(part as i64);
    let b: i64 = round_single(whole as i64);
    round_ratio(a as u128 * 0x1_0000_0000_0000_0000, b as u64, SINGLE)
}

/// A hundred times a part over the whole, each step rounded to 24 significant bits, then to
/// the nearest whole number, a half to the even one.
#[verifier::opaque]
pub open spec fn percent_of(part: int, whole: int) -> int {
    in_grains(
        ratio_to(
            single(100 * single(part)) * 0x1_0000_0000_0000_0000,
            single(whole),
            SINGLE as int,
        ),
        0x1_0000_0000_0000_0000,
    ) / 0x1_0000_0000_0000_0000
}

fn percent(part: usize, whole: usize) -> (r: i64)
    requires
        counted(part as int, whole as int),
    ensures
        r == percent_of(part as int, whole as int),
{
    proof {
        reveal(percent_of);
        lemma_counts(part as int, whole as int);
    }
    let a: i64 = round_single(100 * round_single(part as i64));
    let b: i64 = round_single(whole as i64);
    let ghost n = a * 0x1_0000_0000_0000_0000;
    let scaled: u128 = round_ratio(a as u128 * 0x1_0000_0000_0000_0000, b as u64, SINGLE);
    let q: u128 = scaled / 0x1_0000_0000_0000_0000;
    let rest: u128 = scaled % 0x1_0000_0000_0000_0000;
    proof {
        lemma_ratio_no_larger(n, b as int);
    }
    if rest > 0x8000_0000_0000_0000 || (rest == 0x8000_0000_0000_0000 && q % 2 == 1) {
        (q + 1) as i64
    } else {
        q as i64
    }
}

/// A ratio to a whole number is at most twice what it was of.
proof fn lemma_ratio_no_larger(n: int, d: int)
    requires
        n >= 0,
        d > 0,
    ensures
        0 <= ratio_to(n, d, SINGLE as int) <= 2 * n,
{
    let top = SINGLE as int;
    lemma_ratio(n, d, top);
    let r = ratio_to(n, d, top);
    vstd::arithmetic::div_mod::lemma_div_pos_is_pos(n, d);
    vstd::arithmetic::div_mod::lemma_fundamental_div_mod(n, d);
    let j = lemma_grain_of(n / d, top);
    let u = vstd::arithmetic::power2::pow2(j) as int;
    lemma2_to64();
    if j == 0 {
        assert(d * 1 == d);
        assert(r <= 2 * n) by (nonlinear_arith)
            requires
                2 * (d * r - n) <= d,
                d >= 1,
                n >= 0,
                r >= 0,
        ;
    } else {
        assert(r <= 2 * n) by (nonlinear_arith)
            requires
                2 * (d * r - n) <= d * u,
                u * top <= 2 * (n / d),
                top >= 2,
                d * (n / d) <= n,
                d >= 1,
                n >= 0,
                r >= 0,
        ;
    }
}

/// The name of a kind of feature.
pub open spec fn kind_label(kind: Kind) -> &'static str {
    match kind {
        Kind::River => "river",
        Kind::Road => "road",
    }
}

fn label(kind: Kind) -> (r: &'static str)
    ensures
        r == kind_label(kind),
{
    match kind {
        Kind::River => "river",
        Kind::Road => "road",
    }
}

/// A fault told in percent has a whole to take it of.
pub open spec fn has_share(f: AtlasFault) -> bool {
    match f {
        AtlasFault::CollarWeak { ocean, border } => counted(ocean as int, border as int),
        AtlasFault::PopulationNotSparse { occupied, land } => counted(
            occupied as int,
            land as int,
        ),
        _ => true,
    }
}

/// The parts of the message of a fault.
pub open spec fn fault_pieces(f: AtlasFault) -> Seq<Piece<'static>> {
    match f {
        AtlasFault::SchemaMismatch => seq![
            Piece::Text("schema_version mismatch"),
        ],
        AtlasFault::CellsSizeWrong => seq![
            Piece::Text("cells size wrong"),
        ],
        AtlasFault::TooLittleLand { land } => seq![
            Piece::Text("too little land ("),
            Piece::Count(land),
            Piece::Text(" cells)"),
        ],
        AtlasFault::CollarWeak { ocean, border } => seq![
            Piece::Text("ocean collar weak ("),
            Piece::Number(percent_of(ocean as int, border as int) as i64),
            Piece::Text("% ocean on border)"),
        ],
        AtlasFault::NoLakes => seq![
            Piece::Text("no atlas lakes"),
        ],
        AtlasFault::NoCoastRings => seq![
            Piece::Text("hydro: no coast rings"),
        ],
        AtlasFault::LakeOutlinesMissing => seq![
            Piece::Text("hydro: atlas lakes missing outlines"),
        ],
        AtlasFault::RiverTooShort { id } => seq![
            Piece::Text("hydro: river "),
            Piece::Number(id as i64),
            Piece::Text(" too short"),
        ],
        AtlasFault::LakeWithoutSpill { id } => seq![
            Piece::Text("lake "),
            Piece::Number(id as i64),
            Piece::Text(" has no spill"),
        ],
        AtlasFault::LakeNotContiguous { id } => seq![
            Piece::Text("lake "),
            Piece::Number(id as i64),
            Piece::Text(" is not contiguous"),
        ],
        AtlasFault::LakeTouchesOcean { id } => seq![
            Piece::Text("lake "),
            Piece::Number(id as i64),
            Piece::Text(" touches ocean instead of being ocean"),
        ],
        AtlasFault::InlandOcean { ax, az } => seq![
            Piece::Text("inland ocean cell at ("),
            Piece::Number(ax as i64),
            Piece::Text(","),
            Piece::Number(az as i64),
            Piece::Text(") — must be lake or open sea"),
        ],
        AtlasFault::EastPortsDisagree { kind, ax, az, here, there } => seq![
            Piece::Text(kind_label(kind)),
            Piece::Text(" east ports disagree at "),
            Piece::Number(ax as i64),
            Piece::Text(","),
            Piece::Number(az as i64),
            Piece::Text(" ("),
            Piece::Count(here),
            Piece::Text(" vs "),
            Piece::Count(there),
            Piece::Text(")"),
        ],
        AtlasFault::SouthPortsDisagree { kind, ax, az, here, there } => seq![
            Piece::Text(kind_label(kind)),
            Piece::Text(" south ports disagree at "),
            Piece::Number(ax as i64),
            Piece::Text(","),
            Piece::Number(az as i64),
            Piece::Text(" ("),
            Piece::Count(here),
            Piece::Text(" vs "),
            Piece::Count(there),
            Piece::Text(")"),
        ],
        AtlasFault::PortPayloadMismatch { ax, az, port } => seq![
            Piece::Text("port payload mismatch at "),
            Piece::Number(ax as i64),
            Piece::Text(","),
            Piece::Number(az as i64),
            Piece::Text(" east #"),
            Piece::Count(port),
        ],
        AtlasFault::DanglingPort { key, id } => seq![
            Piece::Text("dangling river port "),
            Piece::Number(key as i64),
            Piece::Text(":"),
            Piece::Number(id as i64),
        ],
        AtlasFault::RiverVanishes { ax, az } => seq![
            Piece::Text("river vanishes at cell "),
            Piece::Number(ax as i64),
            Piece::Text(","),
            Piece::Number(az as i64),
        ],
        AtlasFault::RiverClimbs { ax, az, from, down_ax, down_az, to } => seq![
            Piece::Text("river climbs "),
            Piece::Number(ax as i64),
            Piece::Text(","),
            Piece::Number(az as i64),
            Piece::Text(" ("),
            Piece::Number(from as i64),
            Piece::Text(") -> "),
            Piece::Number(down_ax as i64),
            Piece::Text(","),
            Piece::Number(down_az as i64),
            Piece::Text(" ("),
            Piece::Number(to as i64),
            Piece::Text(")"),
        ],
        AtlasFault::NoNodes => seq![
            Piece::Text("no road nodes"),
        ],
        AtlasFault::RoadsNotConnected { landmass, connected, of } => seq![
            Piece::Text("landmass "),
            Piece::Number(landmass as i64),
            Piece::Text(" primary roads not connected ("),
            Piece::Count(connected),
            Piece::Text(" of "),
            Piece::Count(of),
            Piece::Text(")"),
        ],
        AtlasFault::TooFewNodes { nodes, min } => seq![
            Piece::Text("too few road nodes ("),
            Piece::Count(nodes),
            Piece::Text(" < "),
            Piece::Count(min),
            Piece::Text(")"),
        ],
        AtlasFault::PrimaryEdgesStarved { edges, need } => seq![
            Piece::Text("primary road edges starved ("),
            Piece::Count(edges),
            Piece::Text(" edges, need "),
            Piece::Count(need),
            Piece::Text(")"),
        ],
        AtlasFault::RoadCellsStarved { cells, min } => seq![
            Piece::Text("road cell coverage starved ("),
            Piece::Count(cells),
            Piece::Text(" cells < "),
            Piece::Count(min),
            Piece::Text(")"),
        ],
        AtlasFault::ThroughLinksStarved { cells } => seq![
            Piece::Text("road through-links starved ("),
            Piece::Count(cells),
            Piece::Text(" cells with distinct edge ports)"),
        ],
        AtlasFault::PopulationOnWater { cells } => seq![
            Piece::Text("population on "),
            Piece::Count(cells),
            Piece::Text(" water cells"),
        ],
        AtlasFault::NoPopulatedLand => seq![
            Piece::Text("no populated land cells"),
        ],
        AtlasFault::PopulationNotSparse { occupied, land } => seq![
            Piece::Text("population not sparse ("),
            Piece::Number(percent_of(occupied as int, land as int) as i64),
            Piece::Text("% of land occupied)"),
        ],
    }
}

impl AtlasFault {
    /// The fault in words.
    pub fn message(&self) -> (r: String)
        requires
            has_share(*self),
        ensures
            r@ == rendered(fault_pieces(*self)),
    {
        match *self {
            AtlasFault::SchemaMismatch => {
                let pieces: [Piece; 1] = [
                    Piece::Text("schema_version mismatch"),
                ];
                assert(pieces@ =~= fault_pieces(*self));
                render(&pieces)
            },
            AtlasFault::CellsSizeWrong => {
                let pieces: [Piece; 1] = [
                    Piece::Text("cells size wrong"),
                ];
                assert(pieces@ =~= fault_pieces(*self));
                render(&pieces)
            },
            AtlasFault::TooLittleLand { land } => {
                let pieces: [Piece; 3] = [
                    Piece::Text("too little land ("),
                    Piece::Count(land),
                    Piece::Text(" cells)"),
                ];
                assert(pieces@ =~= fault_pieces(*self));
                render(&pieces)
            },
            AtlasFault::CollarWeak { ocean, border } => {
                let pieces: [Piece; 3] = [
                    Piece::Text("ocean collar weak ("),
                    Piece::Number(percent(ocean, border)),
                    Piece::Text("% ocean on border)"),
                ];
                assert(pieces@ =~= fault_pieces(*self));
                render(&pieces)
            },
            AtlasFault::NoLakes => {
                let pieces: [Piece; 1] = [
                    Piece::Text("no atlas lakes"),
                ];
                assert(pieces@ =~= fault_pieces(*self));
                render(&pieces)
            },
            AtlasFault::NoCoastRings => {
                let pieces: [Piece; 1] = [
                    Piece::Text("hydro: no coast rings"),
                ];
                assert(pieces@ =~= fault_pieces(*self));
                render(&pieces)
            },
            AtlasFault::LakeOutlinesMissing => {
                let pieces: [Piece; 1] = [
                    Piece::Text("hydro: atlas lakes missing outlines"),
                ];
                assert(pieces@ =~= fault_pieces(*self));
                render(&pieces)
            },
            AtlasFault::RiverTooShort { id } => {
                let pieces: [Piece; 3] = [
                    Piece::Text("hydro: river "),
                    Piece::Number(id as i64),
                    Piece::Text(" too short"),
                ];
                assert(pieces@ =~= fault_pieces(*self));
                render(&pieces)
            },
            AtlasFault::LakeWithoutSpill { id } => {
                let pieces: [Piece; 3] = [
                    Piece::Text("lake "),
                    Piece::Number(id as i64),
                    Piece::Text(" has no spill"),
                ];
                assert(pieces@ =~= fault_pieces(*self));
                render(&pieces)
            },
            AtlasFault::LakeNotContiguous { id } => {
                let pieces: [Piece; 3] = [
                    Piece::Text("lake "),
                    Piece::Number(id as i64),
                    Piece::Text(" is not contiguous"),
                ];
                assert(pieces@ =~= fault_pieces(*self));
                render(&pieces)
            },
            AtlasFault::LakeTouchesOcean { id } => {
                let pieces: [Piece; 3] = [
                    Piece::Text("lake "),
                    Piece::Number(id as i64),
                    Piece::Text(" touches ocean instead of being ocean"),
                ];
                assert(pieces@ =~= fault_pieces(*self));
                render(&pieces)
            },
            AtlasFault::InlandOcean { ax, az } => {
                let pieces: [Piece; 5] = [
                    Piece::Text("inland ocean cell at ("),
                    Piece::Number(ax as i64),
                    Piece::Text(","),
                    Piece::Number(az as i64),
                    Piece::Text(") — must be lake or open sea"),
                ];
                assert(pieces@ =~= fault_pieces(*self));
                render(&pieces)
            },
            AtlasFault::EastPortsDisagree { kind, ax, az, here, there } => {
                let pieces: [Piece; 10] = [
                    Piece::Text(label(kind)),
                    Piece::Text(" east ports disagree at "),
                    Piece::Number(ax as i64),
                    Piece::Text(","),
                    Piece::Number(az as i64),
                    Piece::Text(" ("),
                    Piece::Count(here),
                    Piece::Text(" vs "),
                    Piece::Count(there),
                    Piece::Text(")"),
                ];
                assert(pieces@ =~= fault_pieces(*self));
                render(&pieces)
            },
            AtlasFault::SouthPortsDisagree { kind, ax, az, here, there } => {
                let pieces: [Piece; 10] = [
                    Piece::Text(label(kind)),
                    Piece::Text(" south ports disagree at "),
                    Piece::Number(ax as i64),
                    Piece::Text(","),
                    Piece::Number(az as i64),
                    Piece::Text(" ("),
                    Piece::Count(here),
                    Piece::Text(" vs "),
                    Piece::Count(there),
                    Piece::Text(")"),
                ];
                assert(pieces@ =~= fault_pieces(*self));
                render(&pieces)
            },
            AtlasFault::PortPayloadMismatch { ax, az, port } => {
                let pieces: [Piece; 6] = [
                    Piece::Text("port payload mismatch at "),
                    Piece::Number(ax as i64),
                    Piece::Text(","),
                    Piece::Number(az as i64),
                    Piece::Text(" east #"),
                    Piece::Count(port),
                ];
                assert(pieces@ =~= fault_pieces(*self));
                render(&pieces)
            },
            AtlasFault::DanglingPort { key, id } => {
                let pieces: [Piece; 4] = [
                    Piece::Text("dangling river port "),
                    Piece::Number(key as i64),
                    Piece::Text(":"),
                    Piece::Number(id as i64),
                ];
                assert(pieces@ =~= fault_pieces(*self));
                render(&pieces)
            },
            AtlasFault::RiverVanishes { ax, az } => {
                let pieces: [Piece; 4] = [
                    Piece::Text("river vanishes at cell "),
                    Piece::Number(ax as i64),
                    Piece::Text(","),
                    Piece::Number(az as i64),
                ];
                assert(pieces@ =~= fault_pieces(*self));
                render(&pieces)
            },
            AtlasFault::RiverClimbs { ax, az, from, down_ax, down_az, to } => {
                let pieces: [Piece; 13] = [
                    Piece::Text("river climbs "),
                    Piece::Number(ax as i64),
                    Piece::Text(","),
                    Piece::Number(az as i64),
                    Piece::Text(" ("),
                    Piece::Number(from as i64),
                    Piece::Text(") -> "),
                    Piece::Number(down_ax as i64),
                    Piece::Text(","),
                    Piece::Number(down_az as i64),
                    Piece::Text(" ("),
                    Piece::Number(to as i64),
                    Piece::Text(")"),
                ];
                assert(pieces@ =~= fault_pieces(*self));
                render(&pieces)
            },
            AtlasFault::NoNodes => {
                let pieces: [Piece; 1] = [
                    Piece::Text("no road nodes"),
                ];
                assert(pieces@ =~= fault_pieces(*self));
                render(&pieces)
            },
            AtlasFault::RoadsNotConnected { landmass, connected, of } => {
                let pieces: [Piece; 7] = [
                    Piece::Text("landmass "),
                    Piece::Number(landmass as i64),
                    Piece::Text(" primary roads not connected ("),
                    Piece::Count(connected),
                    Piece::Text(" of "),
                    Piece::Count(of),
                    Piece::Text(")"),
                ];
                assert(pieces@ =~= fault_pieces(*self));
                render(&pieces)
            },
            AtlasFault::TooFewNodes { nodes, min } => {
                let pieces: [Piece; 5] = [
                    Piece::Text("too few road nodes ("),
                    Piece::Count(nodes),
                    Piece::Text(" < "),
                    Piece::Count(min),
                    Piece::Text(")"),
                ];
                assert(pieces@ =~= fault_pieces(*self));
                render(&pieces)
            },
            AtlasFault::PrimaryEdgesStarved { edges, need } => {
                let pieces: [Piece; 5] = [
                    Piece::Text("primary road edges starved ("),
                    Piece::Count(edges),
                    Piece::Text(" edges, need "),
                    Piece::Count(need),
                    Piece::Text(")"),
                ];
                assert(pieces@ =~= fault_pieces(*self));
                render(&pieces)
            },
            AtlasFault::RoadCellsStarved { cells, min } => {
                let pieces: [Piece; 5] = [
                    Piece::Text("road cell coverage starved ("),
                    Piece::Count(cells),
                    Piece::Text(" cells < "),
                    Piece::Count(min),
                    Piece::Text(")"),
                ];
                assert(pieces@ =~= fault_pieces(*self));
                render(&pieces)
            },
            AtlasFault::ThroughLinksStarved { cells } => {
                let pieces: [Piece; 3] = [
                    Piece::Text("road through-links starved ("),
                    Piece::Count(cells),
                    Piece::Text(" cells with distinct edge ports)"),
                ];
                assert(pieces@ =~= fault_pieces(*self));
                render(&pieces)
            },
            AtlasFault::PopulationOnWater { cells } => {
                let pieces: [Piece; 3] = [
                    Piece::Text("population on "),
                    Piece::Count(cells),
                    Piece::Text(" water cells"),
                ];
                assert(pieces@ =~= fault_pieces(*self));
                render(&pieces)
            },
            AtlasFault::NoPopulatedLand => {
                let pieces: [Piece; 1] = [
                    Piece::Text("no populated land cells"),
                ];
                assert(pieces@ =~= fault_pieces(*self));
                render(&pieces)
            },
            AtlasFault::PopulationNotSparse { occupied, land } => {
                let pieces: [Piece; 3] = [
                    Piece::Text("population not sparse ("),
                    Piece::Number(percent(occupied, land)),
                    Piece::Text("% of land occupied)"),
                ];
                assert(pieces@ =~= fault_pieces(*self));
                render(&pieces)
            },
        }
    }
}

} // verus!
