//! Text helpers: string equality and decimal rendering.

use vstd::prelude::*;
use vstd::string::*;

verus! {

/// The character of one decimal digit.
pub open spec fn digit_char(d: int) -> char {
    (48 + d) as char
}

/// `n` written in decimal, without leading zeros.
pub open spec fn decimal_nat(n: nat) -> Seq<char>
    decreases n,
{
    if n < 10 {
        seq![digit_char(n as int)]
    } else {
        decimal_nat(n / 10).push(digit_char((n % 10) as int))
    }
}

/// `i` written in decimal, with a leading minus when negative.
pub open spec fn decimal(i: int) -> Seq<char> {
    if i < 0 {
        seq!['-'] + decimal_nat((-i) as nat)
    } else {
        decimal_nat(i as nat)
    }
}

/// Whether two strings hold the same characters.
pub fn str_eq(a: &str, b: &str) -> (r: bool)
    ensures
        r == (a@ == b@),
{
    let left: String = String::from_str(a);
    let right: String = String::from_str(b);
    left == right
}

/// A new string with the characters of `a`.
pub fn owned(a: &str) -> (r: String)
    ensures
        r@ == a@,
{
    String::from_str(a)
}

fn digit_str(d: u64) -> (r: &'static str)
    requires
        d < 10,
    ensures
        r@ == seq![digit_char(d as int)],
{
    proof {
        reveal_strlit("0");
        reveal_strlit("1");
        reveal_strlit("2");
        reveal_strlit("3");
        reveal_strlit("4");
        reveal_strlit("5");
        reveal_strlit("6");
        reveal_strlit("7");
        reveal_strlit("8");
        reveal_strlit("9");
    }
    match d {
        0 => "0",
        1 => "1",
        2 => "2",
        3 => "3",
        4 => "4",
        5 => "5",
        6 => "6",
        7 => "7",
        8 => "8",
        _ => "9",
    }
}

fn push_nat(out: &mut String, n: u64)
    ensures
        final(out)@ == old(out)@ + decimal_nat(n as nat),
    decreases n,
{
    if n >= 10 {
        push_nat(out, n / 10);
        let ghost mid = out@;
        out.append(digit_str(n % 10));
        assert(out@ =~= old(out)@ + decimal_nat(n as nat));
    } else {
        out.append(digit_str(n));
    }
}

/// Appends a count in decimal.
pub fn push_count(out: &mut String, n: usize)
    ensures
        final(out)@ == old(out)@ + decimal(n as int),
{
    push_nat(out, n as u64);
}

/// Appends `i` in decimal.
pub fn push_decimal(out: &mut String, i: i64)
    ensures
        final(out)@ == old(out)@ + decimal(i as int),
{
    if i < 0 {
        proof {
            reveal_strlit("-");
        }
        out.append("-");
        let magnitude: u64 = if i == i64::MIN {
            9223372036854775808u64
        } else {
            (-i) as u64
        };
        push_nat(out, magnitude);
        assert(out@ =~= old(out)@ + decimal(i as int));
    } else {
        push_nat(out, i as u64);
    }
}

/// A part of a message.
#[derive(Clone, Copy)]
pub enum Piece<'a> {
    Text(&'a str),
    Number(i64),
    Count(usize),
}

/// The characters of one part.
pub open spec fn piece_text(p: Piece) -> Seq<char> {
    match p {
        Piece::Text(t) => t@,
        Piece::Number(n) => decimal(n as int),
        Piece::Count(n) => decimal(n as int),
    }
}

/// The characters of the first `n` parts in turn.
pub open spec fn pieces_text(pieces: Seq<Piece>, n: nat) -> Seq<char>
    decreases n,
{
    if n == 0 {
        Seq::empty()
    } else {
        pieces_text(pieces, (n - 1) as nat) + piece_text(pieces[n - 1])
    }
}

/// The characters of all parts in turn.
pub open spec fn rendered(pieces: Seq<Piece>) -> Seq<char> {
    pieces_text(pieces, pieces.len())
}

/// A message of its parts.
pub fn render(pieces: &[Piece]) -> (r: String)
    ensures
        r@ == rendered(pieces@),
{
    let mut out: String = String::new();
    let mut i: usize = 0;
    assert(out@ =~= Seq::<char>::empty());
    while i < pieces.len()
        invariant
            i <= pieces@.len(),
            out@ == pieces_text(pieces@, i as nat),
        decreases pieces@.len() - i,
    {
        match pieces[i] {
            Piece::Text(t) => {
                out.append(t);
            },
            Piece::Number(n) => {
                push_decimal(&mut out, n);
            },
            Piece::Count(n) => {
                push_nat(&mut out, n as u64);
            },
        }
        i += 1;
    }
    out
}

/// Whether `s` begins with the characters of `prefix`.
pub fn starts_with(s: &str, prefix: &str) -> (r: bool)
    ensures
        r == prefix@.is_prefix_of(s@),
{
    let n: usize = prefix.unicode_len();
    if n > s.unicode_len() {
        return false;
    }
    let mut i: usize = 0;
    while i < n
        invariant
            i <= n,
            n == prefix@.len(),
            n <= s@.len(),
            forall|j: int| 0 <= j < i ==> prefix@[j] == s@[j],
        decreases n - i,
    {
        if s.get_char(i) != prefix.get_char(i) {
            assert(s@[i as int] != prefix@[i as int]);
            assert(s@.subrange(0, n as int)[i as int] == s@[i as int]);
            return false;
        }
        i += 1;
    }
    assert(prefix@ =~= s@.subrange(0, n as int));
    true
}

/// The place of the first `c` from `from` on.
pub open spec fn first_char(s: Seq<char>, c: char, from: int) -> Option<int>
    decreases s.len() - from,
{
    if from < 0 || from >= s.len() {
        None
    } else if s[from] == c {
        Some(from)
    } else {
        first_char(s, c, from + 1)
    }
}

/// The place of the first `c`, counted in characters.
pub fn find_char(s: &str, c: char) -> (r: Option<usize>)
    ensures
        match r {
            Some(i) => first_char(s@, c, 0) == Some(i as int) && i < s@.len(),
            None => first_char(s@, c, 0) is None,
        },
{
    let n: usize = s.unicode_len();
    let mut i: usize = 0;
    while i < n
        invariant
            i <= n,
            n == s@.len(),
            first_char(s@, c, 0) == first_char(s@, c, i as int),
        decreases n - i,
    {
        if s.get_char(i) == c {
            return Some(i);
        }
        i += 1;
    }
    None
}

/// The value of a decimal digit.
pub open spec fn digit_value(c: char) -> Option<int> {
    if '0' <= c && c <= '9' {
        Some(c as int - 48)
    } else {
        None
    }
}

/// The value of the digits from `from` on, read after `start`; nothing where one of
/// them is no digit.
pub open spec fn digits_value(s: Seq<char>, from: int, start: int) -> Option<int>
    decreases s.len() - from,
{
    if from < 0 || from >= s.len() {
        Some(start)
    } else {
        match digit_value(s[from]) {
            None => None,
            Some(d) => digits_value(s, from + 1, 10 * start + d),
        }
    }
}

/// The integer that `s` writes in decimal: an optional sign, then at least one digit.
pub open spec fn integer_of(s: Seq<char>) -> Option<int> {
    if s.len() == 0 {
        None
    } else if s[0] == '-' || s[0] == '+' {
        if s.len() == 1 {
            None
        } else {
            match digits_value(s, 1, 0) {
                None => None,
                Some(n) => Some(
                    if s[0] == '-' {
                        -n
                    } else {
                        n
                    },
                ),
            }
        }
    } else {
        digits_value(s, 0, 0)
    }
}

/// The `i32` that `s` writes in decimal; nothing where it writes none or one out of
/// range.
pub open spec fn small_integer_of(s: Seq<char>) -> Option<i32> {
    match integer_of(s) {
        Some(n) => if i32::MIN <= n <= i32::MAX {
            Some(n as i32)
        } else {
            None
        },
        None => None,
    }
}

proof fn lemma_digits_grow(s: Seq<char>, from: int, start: int)
    requires
        start >= 0,
        digits_value(s, from, start) is Some,
    ensures
        digits_value(s, from, start)->0 >= start,
    decreases s.len() - from,
{
    if 0 <= from < s.len() {
        lemma_digits_grow(s, from + 1, 10 * start + digit_value(s[from])->0);
    }
}

/// The digits of `s` from `from` on, held at `cap` where they exceed it.
fn read_digits(s: &str, from: usize, cap: u128) -> (r: Option<u128>)
    requires
        cap <= 0x1_0000_0000_0000_0000,
    ensures
        match digits_value(s@, from as int, 0) {
            None => r is None,
            Some(n) => r == Some(
                if n <= cap {
                    n as u128
                } else {
                    cap
                },
            ),
        },
{
    let n: usize = s.unicode_len();
    let mut i: usize = from;
    let mut value: u128 = 0;
    let mut over: bool = false;
    let ghost mut exact: int = 0;
    while i < n
        invariant
            from <= i,
            n == s@.len(),
            i <= n || i == from,
            cap <= 0x1_0000_0000_0000_0000,
            exact >= 0,
            digits_value(s@, from as int, 0) == digits_value(s@, i as int, exact),
            over ==> exact > cap,
            !over ==> value == exact && value <= cap,
        decreases n - i,
    {
        let c: char = s.get_char(i);
        if !('0' <= c && c <= '9') {
            return None;
        }
        let d: u128 = c as u128 - 48;
        proof {
            exact = 10 * exact + d;
        }
        if !over {
            value = 10 * value + d;
            if value > cap {
                over = true;
            }
        }
        i += 1;
    }
    proof {
        lemma_digits_grow(s@, i as int, exact);
    }
    if over {
        Some(cap)
    } else {
        Some(value)
    }
}

/// The `i32` that `s` writes in decimal: an optional sign and digits, nothing else.
pub fn parse_i32(s: &str) -> (r: Option<i32>)
    ensures
        r == small_integer_of(s@),
{
    if s.unicode_len() == 0 {
        return None;
    }
    let first: char = s.get_char(0);
    if first == '-' || first == '+' {
        if s.unicode_len() == 1 {
            return None;
        }
        let cap: u128 = 2_147_483_649;
        match read_digits(s, 1, cap) {
            None => None,
            Some(n) => {
                proof {
                    lemma_digits_grow(s@, 1, 0);
                }
                if first == '-' {
                    if n <= 2_147_483_648 {
                        Some((-(n as i64)) as i32)
                    } else {
                        None
                    }
                } else if n <= 2_147_483_647 {
                    Some(n as i32)
                } else {
                    None
                }
            },
        }
    } else {
        match read_digits(s, 0, 2_147_483_648) {
            None => None,
            Some(n) => {
                proof {
                    lemma_digits_grow(s@, 0, 0);
                }
                if n <= 2_147_483_647 {
                    Some(n as i32)
                } else {
                    None
                }
            },
        }
    }
}

/// The count that `s` writes in decimal: digits, with a plus sign or without.
pub open spec fn count_of(s: Seq<char>) -> Option<usize> {
    let n = if s.len() == 0 || s[0] == '-' {
        None
    } else if s[0] == '+' {
        if s.len() == 1 {
            None
        } else {
            digits_value(s, 1, 0)
        }
    } else {
        digits_value(s, 0, 0)
    };
    match n {
        Some(n) => if n <= usize::MAX {
            Some(n as usize)
        } else {
            None
        },
        None => None,
    }
}

/// The count that `s` writes in decimal.
pub fn parse_usize(s: &str) -> (r: Option<usize>)
    ensures
        r == count_of(s@),
{
    if s.unicode_len() == 0 {
        return None;
    }
    let first: char = s.get_char(0);
    if first == '-' {
        return None;
    }
    let from: usize = if first == '+' {
        1
    } else {
        0
    };
    if from == s.unicode_len() {
        return None;
    }
    let top: u128 = usize::MAX as u128;
    match read_digits(s, from, top + 1) {
        None => None,
        Some(n) => {
            proof {
                lemma_digits_grow(s@, from as int, 0);
            }
            if n <= top {
                Some(n as usize)
            } else {
                None
            }
        },
    }
}

/// Whether `a` comes before `b` in the order of a dictionary, the first `from`
/// characters being the same.
pub open spec fn before_from(a: Seq<char>, b: Seq<char>, from: int) -> bool
    decreases b.len() - from,
{
    if from < 0 || from >= b.len() {
        false
    } else if from >= a.len() {
        true
    } else if a[from] != b[from] {
        a[from] < b[from]
    } else {
        before_from(a, b, from + 1)
    }
}

/// Whether `a` comes before `b` in the order of a dictionary.
pub open spec fn text_before(a: Seq<char>, b: Seq<char>) -> bool {
    before_from(a, b, 0)
}

/// Whether `a` comes before `b` in the order of a dictionary.
pub fn str_before(a: &str, b: &str) -> (r: bool)
    ensures
        r == text_before(a@, b@),
{
    let n: usize = a.unicode_len();
    let m: usize = b.unicode_len();
    let mut i: usize = 0;
    while i < m
        invariant
            i <= m,
            n == a@.len(),
            m == b@.len(),
            text_before(a@, b@) == before_from(a@, b@, i as int),
        decreases m - i,
    {
        if i >= n {
            return true;
        }
        let x: char = a.get_char(i);
        let y: char = b.get_char(i);
        if x != y {
            return x < y;
        }
        i += 1;
    }
    false
}

proof fn lemma_before_transitive(a: Seq<char>, b: Seq<char>, c: Seq<char>, from: int)
    requires
        from >= 0,
        before_from(a, b, from),
        before_from(b, c, from),
    ensures
        before_from(a, c, from),
    decreases c.len() - from,
{
    if from < a.len() && from < b.len() && from < c.len() && a[from] == b[from] && b[from]
        == c[from] {
        lemma_before_transitive(a, b, c, from + 1);
    }
}

proof fn lemma_before_not_itself(a: Seq<char>, from: int)
    ensures
        !before_from(a, a, from),
    decreases a.len() - from,
{
    if 0 <= from < a.len() {
        lemma_before_not_itself(a, from + 1);
    }
}

proof fn lemma_before_total(a: Seq<char>, b: Seq<char>, from: int)
    requires
        0 <= from,
        from <= a.len() && from <= b.len(),
        forall|j: int| 0 <= j < from ==> a[j] == b[j],
        !before_from(a, b, from),
        !before_from(b, a, from),
    ensures
        a == b,
    decreases b.len() - from,
{
    if from < a.len() && from < b.len() {
        assert(a[from] == b[from]);
        lemma_before_total(a, b, from + 1);
    } else {
        assert(a =~= b);
    }
}

/// The order of a dictionary is a strict total order.
pub proof fn law_text_order(a: Seq<char>, b: Seq<char>, c: Seq<char>)
    ensures
        !text_before(a, a),
        text_before(a, b) && text_before(b, c) ==> text_before(a, c),
        a == b || text_before(a, b) || text_before(b, a),
{
    lemma_before_not_itself(a, 0);
    if text_before(a, b) && text_before(b, c) {
        lemma_before_transitive(a, b, c, 0);
    }
    if !text_before(a, b) && !text_before(b, a) {
        lemma_before_total(a, b, 0);
    }
}

} // verus!
