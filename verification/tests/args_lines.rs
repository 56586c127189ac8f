use orrun::args::{
    parse_args, parse_continent_args, parse_pond_args, ArgFault, ArgTexts, PondNumbers, SimFault,
    Target,
};
use orrun::measure::Real;

fn held(v: f64) -> Real {
    Real { bits: v.to_bits() }
}

fn entry_number(words: &[&str], second: bool) -> Option<Real> {
    let word = words.get(2)?;
    let (x, z) = word.split_once(',')?;
    let part = if second { z } else { x };
    part.trim().parse::<f64>().ok().map(held)
}

fn continent_refusal(words: &[&str]) -> String {
    let fault =
        parse_continent_args(words, entry_number(words, false), entry_number(words, true))
            .unwrap_err();
    let at = match fault {
        ArgFault::Seed => 0,
        ArgFault::Size => 1,
        _ => 2,
    };
    fault.message(ArgTexts {
        entry: true,
        word: words.get(at).copied().unwrap_or(""),
        reason: "",
        x: "",
        z: "",
        span: "",
        bounds: "",
    })
}

#[test]
fn malformed_arguments_are_loud() {
    assert!(continent_refusal(&["bad"]).contains("invalid seed"));
    assert!(continent_refusal(&["1", "31"]).contains("32..=512"));
    assert!(continent_refusal(&["1", "64", "NaN,2"]).contains("finite"));
    assert!(continent_refusal(&["1", "64", "unknown"]).contains("entry must"));
}

fn pond_numbers(words: &[&str], bounds_m: Option<f64>) -> PondNumbers {
    let mid = bounds_m.unwrap_or(0.0) * 0.5;
    let read = |at: usize, default: f64| match words.get(at) {
        Some(word) => word.parse::<f64>().ok().map(held),
        None => Some(held(default)),
    };
    PondNumbers {
        x: read(2, mid),
        z: read(3, mid),
        span: read(4, 3_000.0),
        bounds: bounds_m.map(held),
    }
}

fn pond_refusal(words: &[&str], bounds_m: Option<f64>) -> String {
    let fault = parse_pond_args(words, pond_numbers(words, bounds_m)).unwrap_err();
    fault.message(ArgTexts {
        entry: false,
        word: words.first().copied().unwrap_or(""),
        reason: "",
        x: "",
        z: "",
        span: "",
        bounds: "",
    })
}

#[test]
fn malformed_values_are_rejected() {
    assert!(pond_refusal(&["seed"], None).contains("invalid seed"));
    assert!(pond_refusal(&["1", "31"], None).contains("32..=512"));
    assert!(pond_refusal(&["1", "64", "NaN"], Some(64_000.0)).contains("finite"));
    assert!(pond_refusal(&["1", "64", "1", "2", "0"], Some(64_000.0)).contains("positive"));
}

#[test]
fn absent_values_use_defaults() {
    let numbers = pond_numbers(&[], Some(256_000.0));
    let (seed, size) = parse_pond_args(&[], numbers).expect("defaults");
    assert_eq!(seed, 20260809);
    assert_eq!(size, 256);
    assert_eq!(numbers.x, Some(held(128_000.0)));
    assert_eq!(numbers.z, Some(held(128_000.0)));
    assert_eq!(numbers.span, Some(held(3_000.0)));
}

#[test]
fn every_refusal_of_a_line_is_told() {
    let texts = ArgTexts {
        entry: false,
        word: "w",
        reason: "why",
        x: "1",
        z: "2",
        span: "-3",
        bounds: "64000",
    };
    assert_eq!(ArgFault::TooMany(6).message(texts), "expected at most 5 arguments, got 6");
    assert_eq!(ArgFault::Seed.message(texts), "invalid seed 'w': why");
    assert_eq!(ArgFault::Size.message(texts), "invalid size 'w': why");
    assert_eq!(ArgFault::SizeRange(31).message(texts), "size must be in 32..=512, got 31");
    assert_eq!(
        ArgFault::Entry.message(texts),
        "entry must be river|coast|inland|forest|ocean|summit|pond|x,z, got 'w'"
    );
    assert_eq!(ArgFault::X.message(texts), "invalid x coordinate 'w': why");
    assert_eq!(ArgFault::Z.message(texts), "invalid z coordinate 'w': why");
    assert_eq!(ArgFault::Span.message(texts), "invalid span 'w': why");
    assert_eq!(ArgFault::NotFinite.message(texts), "coordinates must be finite, got (1, 2)");
    assert_eq!(
        ArgFault::SpanNotPositive.message(texts),
        "span must be finite and positive, got -3"
    );
    assert_eq!(
        ArgFault::Outside.message(texts),
        "centre (1, 2) is outside atlas bounds [0, 64000)"
    );
    assert_eq!(ArgFault::Extra.message(texts), "unexpected command-line argument 'w'");
    let entry = ArgTexts { entry: true, ..texts };
    assert_eq!(ArgFault::X.message(entry), "invalid entry x 'w': why");
    assert_eq!(ArgFault::Z.message(entry), "invalid entry z 'w': why");
    assert_eq!(
        ArgFault::NotFinite.message(entry),
        "entry coordinates must be finite, got (1, 2)"
    );
}

#[test]
fn pond_lines_are_refused_one_by_one() {
    let refused = |words: &[&str], bounds: Option<f64>| {
        parse_pond_args(words, pond_numbers(words, bounds)).unwrap_err()
    };
    assert_eq!(refused(&["1", "64", "1", "2", "3", "4"], None), ArgFault::TooMany(6));
    assert_eq!(refused(&["1", "x"], None), ArgFault::Size);
    assert_eq!(refused(&["1", "64", "a"], None), ArgFault::X);
    assert_eq!(refused(&["1", "64", "1", "b"], None), ArgFault::Z);
    assert_eq!(refused(&["1", "64", "1", "2", "c"], None), ArgFault::Span);
    assert_eq!(refused(&["1", "64", "70000", "2"], Some(64_000.0)), ArgFault::Outside);
}

#[test]
fn entries_are_read() {
    let words = ["3", "64", "12.5,7"];
    let args =
        parse_continent_args(&words, entry_number(&words, false), entry_number(&words, true))
            .unwrap();
    assert_eq!(args.seed, 3);
    assert_eq!(args.size, 64);
    assert_eq!(args.target, Target::Exact { comma: 4 });
    assert_eq!(parse_continent_args(&[], None, None).unwrap().target, Target::River);
    let coast = parse_continent_args(&["1", "64", "coast"], None, None).unwrap();
    assert_eq!(coast.target, Target::Coast);
    let extra = parse_continent_args(&["1", "64", "coast", "more"], None, None);
    assert_eq!(extra.unwrap_err(), ArgFault::Extra);
    let x = parse_continent_args(&["1", "64", "a,2"], None, Some(held(2.0)));
    assert_eq!(x.unwrap_err(), ArgFault::X);
    let z = parse_continent_args(&["1", "64", "2,a"], Some(held(2.0)), None);
    assert_eq!(z.unwrap_err(), ArgFault::Z);
}

#[test]
fn simulator_flags_are_read() {
    let words = ["--player-level", "3", "--mob", "wolf", "--count", "2", "--potions", "0"];
    let args = parse_args(&words).unwrap();
    assert_eq!(args.player_level, Some(3));
    assert_eq!(args.mob, Some(3));
    assert_eq!(args.count, 2);
    assert_eq!(args.potions, Some(0));
    assert_eq!(parse_args(&["--count"]).unwrap_err(), SimFault::NeedsValue { flag: 0 });
    assert_eq!(parse_args(&["--count", "x"]).unwrap_err(), SimFault::WantsInt { flag: 0 });
    assert_eq!(parse_args(&["-h"]).unwrap_err(), SimFault::Help);
    assert_eq!(parse_args(&["--bogus"]).unwrap_err(), SimFault::Unknown { at: 0 });
    let told = SimFault::Unknown { at: 0 }.message(&["--bogus"]);
    assert!(told.contains("--bogus"));
}
