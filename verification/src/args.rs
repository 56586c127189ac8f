//! Command lines: the fight simulator's, the continent's and the pond map's.

use crate::measure::Real;
use crate::text::{
    count_of, decimal, find_char, first_char, owned, parse_i32, parse_usize, push_count,
    small_integer_of, str_eq,
};
use vstd::prelude::*;

verus! {

/// What the simulator was asked for. Words are named by their place on the line.
#[derive(Clone, Copy, Debug, PartialEq, Eq, Structural)]
pub struct SimArgs {
    pub scenario: Option<usize>,
    pub out: Option<usize>,
    pub player_level: Option<i32>,
    pub discipline: Option<usize>,
    pub mob: Option<usize>,
    pub count: i32,
    pub seed: i32,
    pub potions: Option<i32>,
}

/// Why the simulator's line is refused. Flags are named by their place on the line.
#[derive(Clone, Copy, Debug, PartialEq, Eq, Structural)]
pub enum SimFault {
    NeedsValue { flag: usize },
    WantsInt { flag: usize },
    Help,
    Unknown { at: usize },
}

/// The flags of the simulator.
#[derive(Clone, Copy, Debug, PartialEq, Eq, Structural)]
pub enum SimFlag {
    Scenario,
    Out,
    PlayerLevel,
    Discipline,
    Mob,
    Count,
    Seed,
    Potions,
    Help,
}

pub open spec fn sim_flag(word: Seq<char>) -> Option<SimFlag> {
    if word == "--scenario"@ {
        Some(SimFlag::Scenario)
    } else if word == "--out"@ {
        Some(SimFlag::Out)
    } else if word == "--player-level"@ {
        Some(SimFlag::PlayerLevel)
    } else if word == "--discipline"@ {
        Some(SimFlag::Discipline)
    } else if word == "--mob"@ {
        Some(SimFlag::Mob)
    } else if word == "--count"@ {
        Some(SimFlag::Count)
    } else if word == "--seed"@ {
        Some(SimFlag::Seed)
    } else if word == "--potions"@ {
        Some(SimFlag::Potions)
    } else if word == "--help"@ || word == "-h"@ {
        Some(SimFlag::Help)
    } else {
        None
    }
}

fn read_flag(word: &str) -> (r: Option<SimFlag>)
    ensures
        r == sim_flag(word@),
{
    if str_eq(word, "--scenario") {
        Some(SimFlag::Scenario)
    } else if str_eq(word, "--out") {
        Some(SimFlag::Out)
    } else if str_eq(word, "--player-level") {
        Some(SimFlag::PlayerLevel)
    } else if str_eq(word, "--discipline") {
        Some(SimFlag::Discipline)
    } else if str_eq(word, "--mob") {
        Some(SimFlag::Mob)
    } else if str_eq(word, "--count") {
        Some(SimFlag::Count)
    } else if str_eq(word, "--seed") {
        Some(SimFlag::Seed)
    } else if str_eq(word, "--potions") {
        Some(SimFlag::Potions)
    } else if str_eq(word, "--help") || str_eq(word, "-h") {
        Some(SimFlag::Help)
    } else {
        None
    }
}

/// What a flag and its value make of what was asked so far.
pub open spec fn sim_taken(a: SimArgs, flag: SimFlag, at: usize, value: Seq<char>) -> Result<
    SimArgs,
    SimFault,
> {
    let number = small_integer_of(value);
    match flag {
        SimFlag::Scenario => Ok(SimArgs { scenario: Some((at + 1) as usize), ..a }),
        SimFlag::Out => Ok(SimArgs { out: Some((at + 1) as usize), ..a }),
        SimFlag::Discipline => Ok(SimArgs { discipline: Some((at + 1) as usize), ..a }),
        SimFlag::Mob => Ok(SimArgs { mob: Some((at + 1) as usize), ..a }),
        SimFlag::PlayerLevel => match number {
            Some(n) => Ok(SimArgs { player_level: Some(n), ..a }),
            None => Err(SimFault::WantsInt { flag: at }),
        },
        SimFlag::Count => match number {
            Some(n) => Ok(SimArgs { count: n, ..a }),
            None => Err(SimFault::WantsInt { flag: at }),
        },
        SimFlag::Seed => match number {
            Some(n) => Ok(SimArgs { seed: n, ..a }),
            None => Err(SimFault::WantsInt { flag: at }),
        },
        SimFlag::Potions => match number {
            Some(n) => Ok(SimArgs { potions: Some(n), ..a }),
            None => Err(SimFault::WantsInt { flag: at }),
        },
        SimFlag::Help => Err(SimFault::Help),
    }
}

/// What the words from `from` on make of what was asked so far.
pub open spec fn sim_read(words: Seq<&str>, a: SimArgs, from: int) -> Result<SimArgs, SimFault>
    decreases words.len() - from,
{
    if from < 0 || from >= words.len() {
        Ok(a)
    } else {
        match sim_flag(words[from]@) {
            None => Err(SimFault::Unknown { at: from as usize }),
            Some(SimFlag::Help) => Err(SimFault::Help),
            Some(flag) => if from + 1 >= words.len() {
                Err(SimFault::NeedsValue { flag: from as usize })
            } else {
                match sim_taken(a, flag, from as usize, words[from + 1]@) {
                    Ok(b) => sim_read(words, b, from + 2),
                    Err(f) => Err(f),
                }
            },
        }
    }
}

/// What is asked for by an empty line: one mob, the first seed.
pub open spec fn sim_default() -> SimArgs {
    SimArgs {
        scenario: None,
        out: None,
        player_level: None,
        discipline: None,
        mob: None,
        count: 1,
        seed: 1,
        potions: None,
    }
}

fn take_value(a: SimArgs, flag: SimFlag, at: usize, value: &str) -> (r: Result<SimArgs, SimFault>)
    requires
        at < usize::MAX,
    ensures
        r == sim_taken(a, flag, at, value@),
{
    match flag {
        SimFlag::Scenario => Ok(SimArgs { scenario: Some(at + 1), ..a }),
        SimFlag::Out => Ok(SimArgs { out: Some(at + 1), ..a }),
        SimFlag::Discipline => Ok(SimArgs { discipline: Some(at + 1), ..a }),
        SimFlag::Mob => Ok(SimArgs { mob: Some(at + 1), ..a }),
        SimFlag::PlayerLevel => match parse_i32(value) {
            Some(n) => Ok(SimArgs { player_level: Some(n), ..a }),
            None => Err(SimFault::WantsInt { flag: at }),
        },
        SimFlag::Count => match parse_i32(value) {
            Some(n) => Ok(SimArgs { count: n, ..a }),
            None => Err(SimFault::WantsInt { flag: at }),
        },
        SimFlag::Seed => match parse_i32(value) {
            Some(n) => Ok(SimArgs { seed: n, ..a }),
            None => Err(SimFault::WantsInt { flag: at }),
        },
        SimFlag::Potions => match parse_i32(value) {
            Some(n) => Ok(SimArgs { potions: Some(n), ..a }),
            None => Err(SimFault::WantsInt { flag: at }),
        },
        SimFlag::Help => Err(SimFault::Help),
    }
}

/// Whether the places of a fault are on the line.
pub open spec fn sim_fault_fits(words: Seq<&str>, f: SimFault) -> bool {
    match f {
        SimFault::NeedsValue { flag } => flag < words.len(),
        SimFault::WantsInt { flag } => flag < words.len(),
        SimFault::Help => true,
        SimFault::Unknown { at } => at < words.len(),
    }
}

/// Reads the simulator's line; a flag given twice counts as it was given last.
pub fn parse_args(words: &[&str]) -> (r: Result<SimArgs, SimFault>)
    ensures
        r == sim_read(words@, sim_default(), 0),
        r is Err ==> sim_fault_fits(words@, r->Err_0),
{
    let mut a: SimArgs = SimArgs {
        scenario: None,
        out: None,
        player_level: None,
        discipline: None,
        mob: None,
        count: 1,
        seed: 1,
        potions: None,
    };
    let mut i: usize = 0;
    while i < words.len()
        invariant
            i <= words@.len(),
            sim_read(words@, sim_default(), 0) == sim_read(words@, a, i as int),
        decreases words@.len() - i,
    {
        match read_flag(words[i]) {
            None => {
                return Err(SimFault::Unknown { at: i });
            },
            Some(flag) => {
                if flag == SimFlag::Help {
                    return Err(SimFault::Help);
                }
                if i + 1 >= words.len() {
                    return Err(SimFault::NeedsValue { flag: i });
                }
                match take_value(a, flag, i, words[i + 1]) {
                    Ok(b) => {
                        a = b;
                    },
                    Err(f) => {
                        return Err(f);
                    },
                }
            },
        }
        i += 2;
    }
    Ok(a)
}

pub open spec fn sim_fault_text(words: Seq<&str>, f: SimFault) -> Seq<char> {
    match f {
        SimFault::NeedsValue { flag } => words[flag as int]@ + " needs a value"@,
        SimFault::WantsInt { flag } => words[flag as int]@ + " wants an int"@,
        SimFault::Help => "help"@,
        SimFault::Unknown { at } => "unknown arg: "@ + words[at as int]@,
    }
}

impl SimFault {
    pub fn message(self, words: &[&str]) -> (r: String)
        requires
            sim_fault_fits(words@, self),
        ensures
            r@ == sim_fault_text(words@, self),
    {
        match self {
            SimFault::NeedsValue { flag } => {
                let mut s: String = owned(words[flag]);
                s.append(" needs a value");
                s
            },
            SimFault::WantsInt { flag } => {
                let mut s: String = owned(words[flag]);
                s.append(" wants an int");
                s
            },
            SimFault::Help => owned("help"),
            SimFault::Unknown { at } => {
                let mut s: String = owned("unknown arg: ");
                s.append(words[at]);
                s
            },
        }
    }
}

/// Where the continent is entered.
#[derive(Clone, Copy, Debug, PartialEq, Eq, Structural)]
pub enum Target {
    River,
    Coast,
    Inland,
    Forest,
    Ocean,
    Summit,
    Pond,
    /// At a point; the two numbers are parted by the comma at this place.
    Exact { comma: usize },
}

pub open spec fn target_of(text: Seq<char>) -> Option<Target> {
    if text == "river"@ {
        Some(Target::River)
    } else if text == "coast"@ {
        Some(Target::Coast)
    } else if text == "inland"@ {
        Some(Target::Inland)
    } else if text == "forest"@ {
        Some(Target::Forest)
    } else if text == "ocean"@ {
        Some(Target::Ocean)
    } else if text == "summit"@ {
        Some(Target::Summit)
    } else if text == "pond"@ {
        Some(Target::Pond)
    } else {
        match first_char(text, ',', 0) {
            Some(i) => Some(Target::Exact { comma: i as usize }),
            None => None,
        }
    }
}

impl Target {
    /// The target a word names; nothing where it names none and holds no comma.
    pub fn parse(text: &str) -> (r: Option<Target>)
        ensures
            r == target_of(text@),
    {
        if str_eq(text, "river") {
            Some(Target::River)
        } else if str_eq(text, "coast") {
            Some(Target::Coast)
        } else if str_eq(text, "inland") {
            Some(Target::Inland)
        } else if str_eq(text, "forest") {
            Some(Target::Forest)
        } else if str_eq(text, "ocean") {
            Some(Target::Ocean)
        } else if str_eq(text, "summit") {
            Some(Target::Summit)
        } else if str_eq(text, "pond") {
            Some(Target::Pond)
        } else {
            match find_char(text, ',') {
                Some(i) => Some(Target::Exact { comma: i }),
                None => None,
            }
        }
    }
}

/// Why a command line of the atlas is refused.
#[derive(Clone, Copy, Debug, PartialEq, Eq, Structural)]
pub enum ArgFault {
    TooMany(usize),
    Seed,
    Size,
    SizeRange(usize),
    Entry,
    X,
    Z,
    Span,
    NotFinite,
    SpanNotPositive,
    Outside,
    Extra,
}

/// The sizes an atlas may be asked for.
pub open spec fn size_ok(size: usize) -> bool {
    32 <= size <= 512
}

/// The seed and the size of a line, where they are given, else the defaults.
pub open spec fn head_of(words: Seq<&str>, seed: i32, size: usize) -> Result<
    (i32, usize),
    ArgFault,
> {
    let s = if words.len() > 0 {
        small_integer_of(words[0]@)
    } else {
        Some(seed)
    };
    let n = if words.len() > 1 {
        count_of(words[1]@)
    } else {
        Some(size)
    };
    if s is None {
        Err(ArgFault::Seed)
    } else if n is None {
        Err(ArgFault::Size)
    } else if !size_ok(n->0) {
        Err(ArgFault::SizeRange(n->0))
    } else {
        Ok((s->0, n->0))
    }
}

fn read_head(words: &[&str], seed: i32, size: usize) -> (r: Result<(i32, usize), ArgFault>)
    ensures
        r == head_of(words@, seed, size),
{
    let s: Option<i32> = if words.len() > 0 {
        parse_i32(words[0])
    } else {
        Some(seed)
    };
    let n: Option<usize> = if words.len() > 1 {
        parse_usize(words[1])
    } else {
        Some(size)
    };
    match s {
        None => Err(ArgFault::Seed),
        Some(s) => match n {
            None => Err(ArgFault::Size),
            Some(n) => if n < 32 || n > 512 {
                Err(ArgFault::SizeRange(n))
            } else {
                Ok((s, n))
            },
        },
    }
}

/// What is asked of the continent.
#[derive(Clone, Copy, Debug, PartialEq, Eq, Structural)]
pub struct ContinentArgs {
    pub seed: i32,
    pub size: usize,
    pub target: Target,
}

/// What a pair of coordinates is refused for; a number that could not be read is not
/// there.
pub open spec fn pair_fault(x: Option<Real>, z: Option<Real>) -> Option<ArgFault> {
    if x is None {
        Some(ArgFault::X)
    } else if z is None {
        Some(ArgFault::Z)
    } else if !x->0.finite() || !z->0.finite() {
        Some(ArgFault::NotFinite)
    } else {
        None
    }
}

/// What the continent's line asks for: seed, size and where to enter, each with a
/// default, and nothing more. `x` and `z` are the numbers around the comma of the
/// third word.
pub open spec fn continent_args(
    words: Seq<&str>,
    x: Option<Real>,
    z: Option<Real>,
) -> Result<ContinentArgs, ArgFault> {
    match head_of(words, 1, 128) {
        Err(f) => Err(f),
        Ok(head) => {
            let target = if words.len() > 2 {
                target_of(words[2]@)
            } else {
                Some(Target::River)
            };
            match target {
                None => Err(ArgFault::Entry),
                Some(t) => if t is Exact && pair_fault(x, z) is Some {
                    Err(pair_fault(x, z)->0)
                } else if words.len() > 3 {
                    Err(ArgFault::Extra)
                } else {
                    Ok(ContinentArgs { seed: head.0, size: head.1, target: t })
                },
            }
        },
    }
}

fn check_pair(x: Option<Real>, z: Option<Real>) -> (r: Option<ArgFault>)
    ensures
        r == pair_fault(x, z),
{
    match x {
        None => Some(ArgFault::X),
        Some(a) => match z {
            None => Some(ArgFault::Z),
            Some(b) => if !a.is_finite() || !b.is_finite() {
                Some(ArgFault::NotFinite)
            } else {
                None
            },
        },
    }
}

/// Reads the continent's line.
pub fn parse_continent_args(words: &[&str], x: Option<Real>, z: Option<Real>) -> (r: Result<
    ContinentArgs,
    ArgFault,
>)
    ensures
        r == continent_args(words@, x, z),
{
    let head: (i32, usize) = match read_head(words, 1, 128) {
        Ok(head) => head,
        Err(f) => {
            return Err(f);
        },
    };
    let target: Target = if words.len() > 2 {
        match Target::parse(words[2]) {
            Some(t) => t,
            None => {
                return Err(ArgFault::Entry);
            },
        }
    } else {
        Target::River
    };
    let exact: bool = match target {
        Target::Exact { comma: _ } => true,
        _ => false,
    };
    if exact {
        match check_pair(x, z) {
            Some(f) => {
                return Err(f);
            },
            None => {},
        }
    }
    if words.len() > 3 {
        return Err(ArgFault::Extra);
    }
    Ok(ContinentArgs { seed: head.0, size: head.1, target })
}

/// The numbers of a pond map's line, defaults filled in; one that could not be read is
/// not there.
#[derive(Clone, Copy, Debug, PartialEq, Eq, Structural)]
pub struct PondNumbers {
    pub x: Option<Real>,
    pub z: Option<Real>,
    pub span: Option<Real>,
    /// How wide the atlas is, once it is known.
    pub bounds: Option<Real>,
}

pub open spec fn pond_fault(n: PondNumbers) -> Option<ArgFault> {
    if n.x is None {
        Some(ArgFault::X)
    } else if n.z is None {
        Some(ArgFault::Z)
    } else if n.span is None {
        Some(ArgFault::Span)
    } else if !n.x->0.finite() || !n.z->0.finite() {
        Some(ArgFault::NotFinite)
    } else if !n.span->0.finite() || n.span->0.place() <= 0 {
        Some(ArgFault::SpanNotPositive)
    } else {
        match n.bounds {
            Some(b) => if n.x->0.place() < 0 || n.z->0.place() < 0 || n.x->0.place() >= b.place()
                || n.z->0.place() >= b.place() {
                Some(ArgFault::Outside)
            } else {
                None
            },
            None => None,
        }
    }
}

/// What the pond map's line asks for: at most five words, seed and size with their
/// defaults, and numbers that make sense.
pub open spec fn pond_args(words: Seq<&str>, n: PondNumbers) -> Result<(i32, usize), ArgFault> {
    if words.len() > 5 {
        Err(ArgFault::TooMany(words.len() as usize))
    } else {
        match head_of(words, 20260809, 256) {
            Err(f) => Err(f),
            Ok(head) => match pond_fault(n) {
                Some(f) => Err(f),
                None => Ok(head),
            },
        }
    }
}

fn check_pond(n: PondNumbers) -> (r: Option<ArgFault>)
    ensures
        r == pond_fault(n),
{
    match (n.x, n.z, n.span) {
        (Some(x), Some(z), Some(span)) => {
            if !x.is_finite() || !z.is_finite() {
                return Some(ArgFault::NotFinite);
            }
            if !span.is_finite() || span.rank() <= 0 {
                return Some(ArgFault::SpanNotPositive);
            }
            match n.bounds {
                Some(b) => if x.rank() < 0 || z.rank() < 0 || x.rank() >= b.rank() || z.rank()
                    >= b.rank() {
                    Some(ArgFault::Outside)
                } else {
                    None
                },
                None => None,
            }
        },
        (None, _, _) => Some(ArgFault::X),
        (_, None, _) => Some(ArgFault::Z),
        (_, _, None) => Some(ArgFault::Span),
    }
}

/// Reads the pond map's line.
pub fn parse_pond_args(words: &[&str], n: PondNumbers) -> (r: Result<(i32, usize), ArgFault>)
    requires
        n.bounds is Some ==> n.bounds->0.finite(),
    ensures
        r == pond_args(words@, n),
{
    if words.len() > 5 {
        return Err(ArgFault::TooMany(words.len()));
    }
    match read_head(words, 20260809, 256) {
        Err(f) => Err(f),
        Ok(head) => match check_pond(n) {
            Some(f) => Err(f),
            None => Ok(head),
        },
    }
}

/// The texts that a refusal quotes: the refused word and why it could not be read, and the
/// numbers of the line as they are written.
#[derive(Clone, Copy, Debug)]
pub struct ArgTexts<'a> {
    /// Whether the numbers are those of an entry point.
    pub entry: bool,
    pub word: &'a str,
    pub reason: &'a str,
    pub x: &'a str,
    pub z: &'a str,
    pub span: &'a str,
    pub bounds: &'a str,
}

/// What a refusal says.
pub open spec fn arg_text(f: ArgFault, t: ArgTexts) -> Seq<char> {
    match f {
        ArgFault::TooMany(n) => "expected at most 5 arguments, got "@ + decimal(n as int),
        ArgFault::Seed => "invalid seed '"@ + t.word@ + "': "@ + t.reason@,
        ArgFault::Size => "invalid size '"@ + t.word@ + "': "@ + t.reason@,
        ArgFault::SizeRange(n) => "size must be in 32..=512, got "@ + decimal(n as int),
        ArgFault::Entry =>
            "entry must be river|coast|inland|forest|ocean|summit|pond|x,z, got '"@ + t.word@
            + "'"@,
        ArgFault::X => (if t.entry {
            "invalid entry x '"@
        } else {
            "invalid x coordinate '"@
        }) + t.word@ + "': "@ + t.reason@,
        ArgFault::Z => (if t.entry {
            "invalid entry z '"@
        } else {
            "invalid z coordinate '"@
        }) + t.word@ + "': "@ + t.reason@,
        ArgFault::Span => "invalid span '"@ + t.word@ + "': "@ + t.reason@,
        ArgFault::NotFinite => (if t.entry {
            "entry coordinates must be finite, got ("@
        } else {
            "coordinates must be finite, got ("@
        }) + t.x@ + ", "@ + t.z@ + ")"@,
        ArgFault::SpanNotPositive => "span must be finite and positive, got "@ + t.span@,
        ArgFault::Outside => "centre ("@ + t.x@ + ", "@ + t.z@ + ") is outside atlas bounds [0, "@
            + t.bounds@ + ")"@,
        ArgFault::Extra => "unexpected command-line argument '"@ + t.word@ + "'"@,
    }
}

fn quoted_fault(start: &str, t: ArgTexts) -> (r: String)
    ensures
        r@ == start@ + t.word@ + "': "@ + t.reason@,
{
    let mut out: String = owned(start);
    out.append(t.word);
    out.append("': ");
    out.append(t.reason);
    out
}

impl ArgFault {
    /// Says why a line was refused.
    pub fn message(self, t: ArgTexts) -> (r: String)
        ensures
            r@ == arg_text(self, t),
    {
        match self {
            ArgFault::TooMany(n) => {
                let mut out: String = owned("expected at most 5 arguments, got ");
                push_count(&mut out, n);
                out
            },
            ArgFault::Seed => quoted_fault("invalid seed '", t),
            ArgFault::Size => quoted_fault("invalid size '", t),
            ArgFault::SizeRange(n) => {
                let mut out: String = owned("size must be in 32..=512, got ");
                push_count(&mut out, n);
                out
            },
            ArgFault::Entry => {
                let mut out: String = owned(
                    "entry must be river|coast|inland|forest|ocean|summit|pond|x,z, got '",
                );
                out.append(t.word);
                out.append("'");
                out
            },
            ArgFault::X => if t.entry {
                quoted_fault("invalid entry x '", t)
            } else {
                quoted_fault("invalid x coordinate '", t)
            },
            ArgFault::Z => if t.entry {
                quoted_fault("invalid entry z '", t)
            } else {
                quoted_fault("invalid z coordinate '", t)
            },
            ArgFault::Span => quoted_fault("invalid span '", t),
            ArgFault::NotFinite => {
                let mut out: String = if t.entry {
                    owned("entry coordinates must be finite, got (")
                } else {
                    owned("coordinates must be finite, got (")
                };
                out.append(t.x);
                out.append(", ");
                out.append(t.z);
                out.append(")");
                out
            },
            ArgFault::SpanNotPositive => {
                let mut out: String = owned("span must be finite and positive, got ");
                out.append(t.span);
                out
            },
            ArgFault::Outside => {
                let mut out: String = owned("centre (");
                out.append(t.x);
                out.append(", ");
                out.append(t.z);
                out.append(") is outside atlas bounds [0, ");
                out.append(t.bounds);
                out.append(")");
                out
            },
            ArgFault::Extra => {
                let mut out: String = owned("unexpected command-line argument '");
                out.append(t.word);
                out.append("'");
                out
            },
        }
    }
}

/// Whatever line is accepted, the atlas is neither too small nor too large.
pub proof fn law_accepted_sizes_are_sound(words: Seq<&str>, x: Option<Real>, z: Option<Real>)
    requires
        continent_args(words, x, z) is Ok,
    ensures
        size_ok(continent_args(words, x, z)->Ok_0.size),
        words.len() <= 3,
{
}

/// A line for the continent that is accepted names no more than seed, size and place. What it
/// leaves out is seed 1, size 128 and a river; a place given by numbers has finite ones.
pub proof fn law_continent_lines(words: Seq<&str>, x: Option<Real>, z: Option<Real>)
    requires
        continent_args(words, x, z) is Ok,
    ensures
        ({
            let a = continent_args(words, x, z)->Ok_0;
            &&& 32 <= a.size <= 512
            &&& words.len() == 0 ==> a.seed == 1
            &&& words.len() <= 1 ==> a.size == 128
            &&& words.len() <= 2 ==> a.target == Target::River
            &&& words.len() >= 1 ==> small_integer_of(words[0]@) == Some(a.seed)
            &&& words.len() >= 2 ==> count_of(words[1]@) == Some(a.size)
            &&& words.len() >= 3 ==> target_of(words[2]@) == Some(a.target)
            &&& a.target is Exact ==> x is Some && z is Some && x->0.finite() && z->0.finite()
        }),
{
}

/// A line for a pond map that is accepted has five words at the most, and numbers that make
/// sense: the middle lies on the atlas, and the span is above nothing. What it leaves out is
/// seed 20260809 and size 256.
pub proof fn law_pond_lines(words: Seq<&str>, n: PondNumbers)
    requires
        pond_args(words, n) is Ok,
    ensures
        ({
            let head = pond_args(words, n)->Ok_0;
            &&& words.len() <= 5
            &&& 32 <= head.1 <= 512
            &&& words.len() == 0 ==> head.0 == 20260809
            &&& words.len() <= 1 ==> head.1 == 256
            &&& n.x is Some && n.z is Some && n.span is Some
            &&& n.x->0.finite() && n.z->0.finite() && n.span->0.finite()
            &&& n.span->0.place() > 0
            &&& n.bounds is Some ==> 0 <= n.x->0.place() < n.bounds->0.place() && 0
                <= n.z->0.place() < n.bounds->0.place()
        }),
{
}

/// Numbers that make sense are never refused: each fault has its cause.
pub proof fn law_pond_faults_have_their_cause(n: PondNumbers)
    ensures
        pond_fault(n) == Some(ArgFault::X) <==> n.x is None,
        pond_fault(n) == Some(ArgFault::NotFinite) ==> !n.x->0.finite() || !n.z->0.finite(),
        pond_fault(n) == Some(ArgFault::SpanNotPositive) ==> !n.span->0.finite()
            || n.span->0.place() <= 0,
        pond_fault(n) == Some(ArgFault::Outside) ==> n.bounds is Some && (n.x->0.place() < 0
            || n.z->0.place() < 0 || n.x->0.place() >= n.bounds->0.place() || n.z->0.place()
            >= n.bounds->0.place()),
        n.x is Some && n.z is Some && n.span is Some && n.x->0.finite() && n.z->0.finite()
            && n.span->0.finite() && n.span->0.place() > 0 && n.bounds is None ==> pond_fault(
            n,
        ) is None,
{
}

} // verus!
