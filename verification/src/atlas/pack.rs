//! Climate bit packing and the mapping between elevation codes and metres.

use crate::atlas::biomes::{biome_number, Biome};
use vstd::prelude::*;

verus! {

/// Metres of the land codes 41 to 255: `20 + 3980 (e^(4t) - 1) / (e^4 - 1)`
/// with `t` running from 0 to 1, cut to whole metres.
pub const LAND_METRES: [i32; 215] = [
    20, 21, 22, 24, 25, 27, 28, 30, 31, 33, 35, 36,
    38, 40, 42, 44, 45, 47, 49, 51, 53, 55, 57, 59,
    62, 64, 66, 68, 71, 73, 75, 78, 80, 83, 85, 88,
    91, 94, 96, 99, 102, 105, 108, 111, 114, 117, 121, 124,
    127, 131, 134, 138, 142, 145, 149, 153, 157, 161, 165, 169,
    173, 177, 182, 186, 191, 195, 200, 205, 210, 215, 220, 225,
    230, 236, 241, 247, 253, 258, 264, 270, 276, 283, 289, 296,
    302, 309, 316, 323, 330, 337, 345, 352, 360, 368, 376, 384,
    392, 400, 409, 418, 427, 436, 445, 454, 464, 474, 484, 494,
    504, 515, 526, 537, 548, 559, 571, 582, 594, 607, 619, 632,
    645, 658, 671, 685, 699, 713, 728, 743, 758, 773, 789, 805,
    821, 837, 854, 871, 889, 907, 925, 943, 962, 981, 1001, 1021,
    1041, 1062, 1083, 1104, 1126, 1148, 1171, 1194, 1218, 1242, 1266, 1291,
    1316, 1342, 1369, 1395, 1423, 1451, 1479, 1508, 1538, 1568, 1598, 1629,
    1661, 1694, 1727, 1760, 1794, 1829, 1865, 1901, 1938, 1976, 2014, 2053,
    2093, 2133, 2174, 2216, 2259, 2303, 2347, 2393, 2439, 2486, 2534, 2583,
    2633, 2683, 2735, 2788, 2841, 2896, 2952, 3008, 3066, 3125, 3185, 3246,
    3308, 3372, 3436, 3502, 3569, 3638, 3707, 3778, 3851, 3924, 4000,
];

/// The least height above 20 m that rounds to the land code 43 and up, by the
/// inverse of the curve behind [`LAND_METRES`].
pub const LAND_FLOOR: [i32; 213] = [
    23, 24, 26, 27, 29, 30, 32, 33, 35, 37, 38, 40,
    42, 44, 45, 47, 49, 51, 53, 55, 57, 59, 61, 64,
    66, 68, 70, 73, 75, 78, 80, 83, 85, 88, 90, 93,
    96, 99, 102, 105, 108, 111, 114, 117, 120, 123, 127, 130,
    134, 137, 141, 144, 148, 152, 156, 160, 164, 168, 172, 176,
    181, 185, 190, 194, 199, 204, 208, 213, 218, 224, 229, 234,
    240, 245, 251, 257, 262, 268, 274, 281, 287, 293, 300, 307,
    313, 320, 327, 335, 342, 349, 357, 365, 373, 381, 389, 397,
    406, 414, 423, 432, 441, 451, 460, 470, 480, 490, 500, 511,
    521, 532, 543, 554, 566, 577, 589, 602, 614, 627, 639, 652,
    666, 679, 693, 707, 722, 736, 751, 766, 782, 798, 814, 830,
    847, 864, 881, 899, 917, 935, 954, 973, 992, 1012, 1032, 1052,
    1073, 1094, 1116, 1138, 1161, 1183, 1207, 1231, 1255, 1279, 1305, 1330,
    1356, 1383, 1410, 1438, 1466, 1495, 1524, 1554, 1584, 1615, 1646, 1678,
    1711, 1744, 1778, 1813, 1848, 1884, 1920, 1958, 1996, 2034, 2074, 2114,
    2155, 2196, 2239, 2282, 2326, 2371, 2417, 2463, 2511, 2559, 2609, 2659,
    2710, 2762, 2815, 2869, 2925, 2981, 3038, 3096, 3156, 3216, 3278, 3341,
    3405, 3470, 3537, 3604, 3673, 3744, 3815, 3888, 3963,
];

/// `v` moved to the nearer end of `lo..=hi` where it lies outside.
pub open spec fn clamped(v: int, lo: int, hi: int) -> int {
    if v < lo {
        lo
    } else if v > hi {
        hi
    } else {
        v
    }
}

/// `v` moved to the nearer end of `lo..=hi` where it lies outside.
pub fn clamp_i(v: i32, lo: i32, hi: i32) -> (r: i32)
    requires
        lo <= hi,
    ensures
        r == clamped(v as int, lo as int, hi as int),
        lo <= r <= hi,
{
    if v < lo {
        lo
    } else if v > hi {
        hi
    } else {
        v
    }
}

/// Eight bits of elevation, eight of humidity, six of biome, six of relief and
/// four of population, from the low end up.
pub open spec fn packed(
    elevation: i32,
    humidity: i32,
    biome: i32,
    relief: i32,
    population: i32,
) -> i32 {
    elevation | (humidity << 8) | (biome << 16) | (relief << 22) | (population << 28)
}

/// The packed cell for given climate values, each moved into its field's range.
pub open spec fn packed_cell(
    elevation: int,
    humidity: int,
    biome: Biome,
    relief: int,
    population: int,
) -> i32 {
    packed(
        clamped(elevation, 0, 255) as i32,
        clamped(humidity, 0, 255) as i32,
        biome_number(biome) as i32,
        clamped(relief, 0, 63) as i32,
        clamped(population, 0, 15) as i32,
    )
}

pub open spec fn cell_elevation(cell: i32) -> i32 {
    cell & 0xFF
}

pub open spec fn cell_humidity(cell: i32) -> i32 {
    (cell >> 8) & 0xFF
}

pub open spec fn cell_biome_id(cell: i32) -> i32 {
    (cell >> 16) & 0x3F
}

pub open spec fn cell_relief(cell: i32) -> i32 {
    (cell >> 22) & 0x3F
}

pub open spec fn cell_pop(cell: i32) -> i32 {
    (cell >> 28) & 0xF
}

/// A cell whose biome field names a biome.
pub open spec fn cell_valid(cell: i32) -> bool {
    cell_biome_id(cell) <= 8
}

/// The biome of a valid cell.
pub open spec fn cell_biome(cell: i32) -> Biome {
    choose|b: Biome| biome_number(b) == cell_biome_id(cell)
}

/// Whether a valid cell is sea or lake.
pub open spec fn cell_is_water(cell: i32) -> bool {
    cell_biome_id(cell) == 0 || cell_biome_id(cell) == 8
}

/// The biome of a valid cell is the one its biome field numbers.
pub proof fn lemma_cell_biome(cell: i32)
    requires
        cell_valid(cell),
    ensures
        biome_number(cell_biome(cell)) == cell_biome_id(cell),
{
    lemma_field_ranges(cell);
    let id = cell_biome_id(cell);
    let b = if id == 0 {
        Biome::Ocean
    } else if id == 1 {
        Biome::Coast
    } else if id == 2 {
        Biome::Plains
    } else if id == 3 {
        Biome::Forest
    } else if id == 4 {
        Biome::Wetland
    } else if id == 5 {
        Biome::Arid
    } else if id == 6 {
        Biome::Alpine
    } else if id == 7 {
        Biome::Tundra
    } else {
        Biome::Lake
    };
    assert(biome_number(b) == id);
}

proof fn lemma_fields_of_packed(e: i32, h: i32, b: i32, r: i32, p: i32)
    requires
        0 <= e <= 255,
        0 <= h <= 255,
        0 <= b <= 63,
        0 <= r <= 63,
        0 <= p <= 15,
    ensures
        cell_elevation(packed(e, h, b, r, p)) == e,
        cell_humidity(packed(e, h, b, r, p)) == h,
        cell_biome_id(packed(e, h, b, r, p)) == b,
        cell_relief(packed(e, h, b, r, p)) == r,
        cell_pop(packed(e, h, b, r, p)) == p,
{
    let cell: i32 = packed(e, h, b, r, p);
    assert(cell & 0xFF == e && (cell >> 8) & 0xFF == h && (cell >> 16) & 0x3F == b && (cell
        >> 22) & 0x3F == r && (cell >> 28) & 0xF == p) by (bit_vector)
        requires
            cell == e | (h << 8) | (b << 16) | (r << 22) | (p << 28),
            0 <= e <= 255,
            0 <= h <= 255,
            0 <= b <= 63,
            0 <= r <= 63,
            0 <= p <= 15,
    ;
}

/// Every field is read back from a packed cell as it was put in, moved into the
/// field's range.
pub proof fn law_pack_round_trip(
    elevation: int,
    humidity: int,
    biome: Biome,
    relief: int,
    population: int,
)
    ensures
        ({
            let cell = packed_cell(elevation, humidity, biome, relief, population);
            &&& cell_elevation(cell) == clamped(elevation, 0, 255)
            &&& cell_humidity(cell) == clamped(humidity, 0, 255)
            &&& cell_biome_id(cell) == biome_number(biome)
            &&& cell_relief(cell) == clamped(relief, 0, 63)
            &&& cell_pop(cell) == clamped(population, 0, 15)
            &&& cell_valid(cell)
            &&& cell_biome(cell) == biome
        }),
{
    let cell = packed_cell(elevation, humidity, biome, relief, population);
    lemma_fields_of_packed(
        clamped(elevation, 0, 255) as i32,
        clamped(humidity, 0, 255) as i32,
        biome_number(biome) as i32,
        clamped(relief, 0, 63) as i32,
        clamped(population, 0, 15) as i32,
    );
    assert(biome_number(biome) == cell_biome_id(cell));
}

/// The fields of any cell lie in their ranges.
pub proof fn lemma_field_ranges(cell: i32)
    ensures
        0 <= cell_elevation(cell) <= 255,
        0 <= cell_humidity(cell) <= 255,
        0 <= cell_biome_id(cell) <= 63,
        0 <= cell_relief(cell) <= 63,
        0 <= cell_pop(cell) <= 15,
{
    assert(0 <= cell & 0xFF <= 255 && 0 <= (cell >> 8) & 0xFF <= 255 && 0 <= (cell >> 16) & 0x3F
        <= 63 && 0 <= (cell >> 22) & 0x3F <= 63 && 0 <= (cell >> 28) & 0xF <= 15) by (bit_vector);
}

pub fn pack(elevation: i32, humidity: i32, biome: Biome, relief: i32, population: i32) -> (r: i32)
    ensures
        r == packed_cell(
            elevation as int,
            humidity as int,
            biome,
            relief as int,
            population as int,
        ),
{
    clamp_i(elevation, 0, 255) | (clamp_i(humidity, 0, 255) << 8) | (biome.id() << 16) | (clamp_i(
        relief,
        0,
        63,
    ) << 22) | (clamp_i(population, 0, 15) << 28)
}

pub fn elevation(cell: i32) -> (r: i32)
    ensures
        r == cell_elevation(cell),
        0 <= r <= 255,
{
    proof {
        lemma_field_ranges(cell);
    }
    cell & 0xFF
}

pub fn humidity(cell: i32) -> (r: i32)
    ensures
        r == cell_humidity(cell),
        0 <= r <= 255,
{
    proof {
        lemma_field_ranges(cell);
    }
    (cell >> 8) & 0xFF
}

pub fn biome(cell: i32) -> (r: Biome)
    requires
        cell_valid(cell),
    ensures
        r == cell_biome(cell),
        biome_number(r) == cell_biome_id(cell),
{
    proof {
        lemma_field_ranges(cell);
    }
    let b: Biome = Biome::from_id((cell >> 16) & 0x3F);
    assert(biome_number(b) == cell_biome_id(cell));
    b
}

pub fn relief(cell: i32) -> (r: i32)
    ensures
        r == cell_relief(cell),
        0 <= r <= 63,
{
    proof {
        lemma_field_ranges(cell);
    }
    (cell >> 22) & 0x3F
}

pub fn population(cell: i32) -> (r: i32)
    ensures
        r == cell_pop(cell),
        0 <= r <= 15,
{
    proof {
        lemma_field_ranges(cell);
    }
    (cell >> 28) & 0xF
}

/// Metres of an elevation code: the sea bed rises evenly from -80 to 0, the
/// coast from 0 to 20, the land along [`LAND_METRES`]. Fractions are cut.
pub open spec fn code_metres(code: int) -> int {
    let c = clamped(code, 0, 255);
    if c <= 32 {
        -((160 - 5 * c) / 2)
    } else if c <= 40 {
        20 * (c - 33) / 7
    } else {
        LAND_METRES[c - 41] as int
    }
}

/// The land code of the highest of the first `n` floors that is not above `m`.
pub open spec fn land_code_upto(m: int, n: nat) -> int
    decreases n,
{
    if n == 0 {
        42
    } else if LAND_FLOOR[n - 1] <= m {
        42 + n as int
    } else {
        land_code_upto(m, (n - 1) as nat)
    }
}

/// The elevation code of a height in metres.
pub open spec fn metres_code(m: int) -> int {
    if m <= 0 {
        clamped(2 * (m + 80) / 5, 0, 32)
    } else if m <= 20 {
        33 + 7 * m / 20
    } else {
        land_code_upto(m, 213)
    }
}

/// Quantized metres for an elevation code.
pub fn elevation_to_metres(code: i32) -> (r: i32)
    ensures
        r == code_metres(code as int),
        -80 <= r <= 4000,
{
    let c: i32 = clamp_i(code, 0, 255);
    proof {
        lemma_land_metres_range();
    }
    if c <= 32 {
        -((160 - 5 * c) / 2)
    } else if c <= 40 {
        20 * (c - 33) / 7
    } else {
        LAND_METRES[(c - 41) as usize]
    }
}

/// The elevation code for a height in metres.
pub fn metres_to_elevation(metres: i32) -> (r: i32)
    ensures
        r == metres_code(metres as int),
        0 <= r <= 255,
{
    if metres <= -80 {
        return 0;
    }
    if metres <= 0 {
        return clamp_i(2 * (metres + 80) / 5, 0, 32);
    }
    if metres <= 20 {
        return 33 + 7 * metres / 20;
    }
    let mut n: usize = 213;
    while n > 0 && LAND_FLOOR[n - 1] > metres
        invariant
            n <= 213,
            land_code_upto(metres as int, n as nat) == land_code_upto(metres as int, 213),
        decreases n,
    {
        n -= 1;
    }
    42 + n as i32
}

proof fn lemma_land_metres_range()
    ensures
        forall|i: int| 0 <= i < 215 ==> 20 <= #[trigger] LAND_METRES[i] <= 4000,
{
}

proof fn lemma_land_metres_step(i: int)
    requires
        0 <= i < 214,
    ensures
        LAND_METRES[i] <= LAND_METRES[i + 1],
{
}

proof fn lemma_code_metres_step(c: int)
    requires
        0 <= c < 255,
    ensures
        code_metres(c) <= code_metres(c + 1),
{
    if c >= 41 {
        lemma_land_metres_step(c - 41);
    }
    lemma_land_metres_range();
}

/// A higher code never means lower ground.
pub proof fn law_metres_rise_with_code(a: int, b: int)
    requires
        a <= b,
    ensures
        code_metres(a) <= code_metres(b),
    decreases b - a,
{
    if a < b {
        if b > 255 {
            law_metres_rise_with_code(a, b - 1);
            assert(code_metres(b) == code_metres(b - 1)) by {
                if b == 256 {
                } else {
                }
            }
        } else if a < 0 {
            law_metres_rise_with_code(a + 1, b);
        } else {
            law_metres_rise_with_code(a, b - 1);
            lemma_code_metres_step(b - 1);
        }
    }
}

/// Sea codes lie at or below sea level, coast codes up to 20 m above it, land
/// codes from there to 4000 m; the deepest code is -80 m and the highest 4000 m.
pub proof fn law_metre_bands(c: int)
    ensures
        c <= 32 ==> -80 <= code_metres(c) <= 0,
        33 <= c <= 40 ==> 0 <= code_metres(c) <= 20,
        c >= 41 ==> 20 <= code_metres(c) <= 4000,
        code_metres(0) == -80,
        code_metres(32) == 0,
        code_metres(40) == 20,
        code_metres(255) == 4000,
{
    lemma_land_metres_range();
}

proof fn lemma_land_code_bracket(m: int, n: nat)
    requires
        n <= 213,
        n < 213 ==> m < LAND_FLOOR[n as int],
    ensures
        ({
            let c = land_code_upto(m, n);
            &&& 42 <= c <= 42 + n
            &&& c > 42 ==> LAND_FLOOR[c - 43] <= m
            &&& c < 255 ==> m < LAND_FLOOR[c - 42]
        }),
    decreases n,
{
    if n > 0 && LAND_FLOOR[n - 1] > m {
        lemma_land_code_bracket(m, (n - 1) as nat);
    }
}

proof fn lemma_land_brackets(c: int)
    requires
        42 <= c <= 255,
    ensures
        c == 42 ==> LAND_METRES[c - 41] == 21 && LAND_FLOOR[0] == 23,
        42 < c ==> 100 * (LAND_METRES[c - 41] - LAND_FLOOR[c - 43]) <= LAND_FLOOR[c - 43] + 123,
        c < 255 ==> 99 * (LAND_FLOOR[c - 42] - 1) <= 100 * LAND_METRES[c - 41] + 123,
        c == 255 ==> LAND_METRES[c - 41] == 4000,
{
}

/// A height above the coast and up to the highest peak comes back from its code
/// within one part in a hundred and a metre and a quarter.
pub proof fn law_metres_round_trip(m: int)
    requires
        20 < m <= 4000,
    ensures
        -(m + 123) <= 100 * (code_metres(metres_code(m)) - m) <= m + 123,
{
    lemma_land_code_bracket(m, 213);
    lemma_land_brackets(metres_code(m));
}

} // verus!
