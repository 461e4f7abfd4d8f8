//! Decimal integer parsing of protocol values, with the acceptance rules and
//! error kinds of Rust's `str::parse` for `u32` and `i32`: an optional sign,
//! then ASCII digits read left to right, failing at the first character that
//! is not a digit or at the first digit that leaves the target range.

use vstd::prelude::*;

use crate::encoding::{decimal, decimal_text, lemma_decimal_digits};

verus! {

/// Why a decimal integer could not be parsed.
#[derive(Debug, Clone, Copy, PartialEq, Eq)]
pub enum IntErrorKind {
    Empty,
    InvalidDigit,
    PosOverflow,
    NegOverflow,
}

/// An ASCII decimal digit.
pub open spec fn is_digit(c: char) -> bool {
    0x30 <= (c as u32) <= 0x39
}

/// The value of an ASCII decimal digit.
pub open spec fn digit_value(c: char) -> int {
    (c as u32) - 0x30
}

/// Reads digits left to right onto `acc`, failing above `max`.
pub open spec fn scan_up(ds: Seq<char>, acc: int, max: int) -> Result<int, IntErrorKind>
    decreases ds.len(),
{
    if ds.len() == 0 {
        Ok(acc)
    } else if !is_digit(ds[0]) {
        Err(IntErrorKind::InvalidDigit)
    } else if acc * 10 + digit_value(ds[0]) > max {
        Err(IntErrorKind::PosOverflow)
    } else {
        scan_up(ds.drop_first(), acc * 10 + digit_value(ds[0]), max)
    }
}

/// Reads digits left to right below `acc` (a negative number), failing
/// below `min`.
pub open spec fn scan_down(ds: Seq<char>, acc: int, min: int) -> Result<int, IntErrorKind>
    decreases ds.len(),
{
    if ds.len() == 0 {
        Ok(acc)
    } else if !is_digit(ds[0]) {
        Err(IntErrorKind::InvalidDigit)
    } else if acc * 10 - digit_value(ds[0]) < min {
        Err(IntErrorKind::NegOverflow)
    } else {
        scan_down(ds.drop_first(), acc * 10 - digit_value(ds[0]), min)
    }
}

/// The result of parsing `s` as a `u32`.
pub open spec fn spec_parse_u32(s: Seq<char>) -> Result<u32, IntErrorKind> {
    if s.len() == 0 {
        Err(IntErrorKind::Empty)
    } else if s.len() == 1 && (s[0] == '+' || s[0] == '-') {
        Err(IntErrorKind::InvalidDigit)
    } else {
        let ds = if s[0] == '+' {
            s.drop_first()
        } else {
            s
        };
        match scan_up(ds, 0, u32::MAX as int) {
            Ok(v) => Ok(v as u32),
            Err(e) => Err(e),
        }
    }
}

/// The result of parsing `s` as an `i32`.
pub open spec fn spec_parse_i32(s: Seq<char>) -> Result<i32, IntErrorKind> {
    if s.len() == 0 {
        Err(IntErrorKind::Empty)
    } else if s.len() == 1 && (s[0] == '+' || s[0] == '-') {
        Err(IntErrorKind::InvalidDigit)
    } else if s[0] == '-' {
        match scan_down(s.drop_first(), 0, i32::MIN as int) {
            Ok(v) => Ok(v as i32),
            Err(e) => Err(e),
        }
    } else {
        let ds = if s[0] == '+' {
            s.drop_first()
        } else {
            s
        };
        match scan_up(ds, 0, i32::MAX as int) {
            Ok(v) => Ok(v as i32),
            Err(e) => Err(e),
        }
    }
}

/// The message Rust gives for each kind of integer parse error.
pub open spec fn int_error_text(k: IntErrorKind) -> Seq<char> {
    match k {
        IntErrorKind::Empty => "cannot parse integer from empty string"@,
        IntErrorKind::InvalidDigit => "invalid digit found in string"@,
        IntErrorKind::PosOverflow => "number too large to fit in target type"@,
        IntErrorKind::NegOverflow => "number too small to fit in target type"@,
    }
}

/// The message for an integer parse error.
pub fn int_error_message(k: IntErrorKind) -> (r: String)
    ensures
        r@ == int_error_text(k),
{
    match k {
        IntErrorKind::Empty => String::from_str("cannot parse integer from empty string"),
        IntErrorKind::InvalidDigit => String::from_str("invalid digit found in string"),
        IntErrorKind::PosOverflow => String::from_str("number too large to fit in target type"),
        IntErrorKind::NegOverflow => String::from_str("number too small to fit in target type"),
    }
}

/// An upward scan never goes below its start, nor above its limit once it
/// reads a digit.
proof fn lemma_scan_up_bound(ds: Seq<char>, acc: int, max: int)
    requires
        0 <= acc,
    ensures
        scan_up(ds, acc, max) matches Ok(v) ==> acc <= v && (ds.len() > 0 ==> v <= max),
    decreases ds.len(),
{
    if ds.len() > 0 && is_digit(ds[0]) && acc * 10 + digit_value(ds[0]) <= max {
        lemma_scan_up_bound(ds.drop_first(), acc * 10 + digit_value(ds[0]), max);
        assert(acc <= acc * 10 + digit_value(ds[0])) by (nonlinear_arith)
            requires
                0 <= acc,
                0 <= digit_value(ds[0]),
        ;
    }
}

/// A downward scan never goes above its start, nor below its limit once it
/// reads a digit.
proof fn lemma_scan_down_bound(ds: Seq<char>, acc: int, min: int)
    requires
        acc <= 0,
    ensures
        scan_down(ds, acc, min) matches Ok(v) ==> v <= acc && (ds.len() > 0 ==> min <= v),
    decreases ds.len(),
{
    if ds.len() > 0 && is_digit(ds[0]) && acc * 10 - digit_value(ds[0]) >= min {
        lemma_scan_down_bound(ds.drop_first(), acc * 10 - digit_value(ds[0]), min);
        assert(acc * 10 - digit_value(ds[0]) <= acc) by (nonlinear_arith)
            requires
                acc <= 0,
                0 <= digit_value(ds[0]),
        ;
    }
}

/// Reads the digits `cs[lo..hi]` upward from zero, failing above `max`.
fn scan_up_exec(cs: &[char], lo: usize, hi: usize, max: u64) -> (r: Result<u64, IntErrorKind>)
    requires
        lo <= hi <= cs@.len(),
        max < 0x1_0000_0000,
    ensures
        match (r, scan_up(cs@.subrange(lo as int, hi as int), 0, max as int)) {
            (Ok(a), Ok(b)) => a == b,
            (Err(a), Err(b)) => a == b,
            _ => false,
        },
{
    let ghost whole = cs@.subrange(lo as int, hi as int);
    let mut acc: u64 = 0;
    let mut i = lo;
    while i < hi
        invariant
            lo <= i <= hi,
            hi <= cs@.len(),
            max < 0x1_0000_0000,
            acc <= max,
            whole == cs@.subrange(lo as int, hi as int),
            scan_up(whole, 0, max as int) == scan_up(
                cs@.subrange(i as int, hi as int),
                acc as int,
                max as int,
            ),
        decreases hi - i,
    {
        let c = cs[i];
        let ghost rest = cs@.subrange(i as int, hi as int);
        assert(rest[0] == c);
        assert(rest.drop_first() =~= cs@.subrange(i + 1, hi as int));
        let code = c as u32;
        if !(0x30 <= code && code <= 0x39) {
            return Err(IntErrorKind::InvalidDigit);
        }
        let d: u64 = (code - 0x30) as u64;
        let next = acc * 10 + d;
        if next > max {
            return Err(IntErrorKind::PosOverflow);
        }
        acc = next;
        i = i + 1;
    }
    assert(cs@.subrange(i as int, hi as int).len() == 0);
    Ok(acc)
}

/// Reads the digits `cs[lo..hi]` downward from zero, failing below `min`.
fn scan_down_exec(cs: &[char], lo: usize, hi: usize, min: i64) -> (r: Result<i64, IntErrorKind>)
    requires
        lo <= hi <= cs@.len(),
        -0x1_0000_0000 < min <= 0,
    ensures
        match (r, scan_down(cs@.subrange(lo as int, hi as int), 0, min as int)) {
            (Ok(a), Ok(b)) => a == b,
            (Err(a), Err(b)) => a == b,
            _ => false,
        },
{
    let ghost whole = cs@.subrange(lo as int, hi as int);
    let mut acc: i64 = 0;
    let mut i = lo;
    while i < hi
        invariant
            lo <= i <= hi,
            hi <= cs@.len(),
            -0x1_0000_0000 < min <= 0,
            min <= acc <= 0,
            whole == cs@.subrange(lo as int, hi as int),
            scan_down(whole, 0, min as int) == scan_down(
                cs@.subrange(i as int, hi as int),
                acc as int,
                min as int,
            ),
        decreases hi - i,
    {
        let c = cs[i];
        let ghost rest = cs@.subrange(i as int, hi as int);
        assert(rest[0] == c);
        assert(rest.drop_first() =~= cs@.subrange(i + 1, hi as int));
        let code = c as u32;
        if !(0x30 <= code && code <= 0x39) {
            return Err(IntErrorKind::InvalidDigit);
        }
        let d: i64 = (code - 0x30) as i64;
        let next = acc * 10 - d;
        if next < min {
            return Err(IntErrorKind::NegOverflow);
        }
        acc = next;
        i = i + 1;
    }
    assert(cs@.subrange(i as int, hi as int).len() == 0);
    Ok(acc)
}

/// Parses `cs[lo..hi]` as a `u32` the way `str::parse::<u32>` does.
pub fn parse_u32_chars(cs: &[char], lo: usize, hi: usize) -> (r: Result<u32, IntErrorKind>)
    requires
        lo <= hi <= cs@.len(),
    ensures
        r == spec_parse_u32(cs@.subrange(lo as int, hi as int)),
{
    let ghost s = cs@.subrange(lo as int, hi as int);
    if lo == hi {
        return Err(IntErrorKind::Empty);
    }
    let first = cs[lo];
    assert(s[0] == first);
    if hi - lo == 1 && (first == '+' || first == '-') {
        return Err(IntErrorKind::InvalidDigit);
    }
    let start = if first == '+' {
        lo + 1
    } else {
        lo
    };
    assert(first == '+' ==> s.drop_first() =~= cs@.subrange(start as int, hi as int));
    proof {
        lemma_scan_up_bound(cs@.subrange(start as int, hi as int), 0, u32::MAX as int);
    }
    match scan_up_exec(cs, start, hi, 0xFFFF_FFFF) {
        Ok(v) => Ok(v as u32),
        Err(e) => Err(e),
    }
}

/// Parses `cs[lo..hi]` as an `i32` the way `str::parse::<i32>` does.
pub fn parse_i32_chars(cs: &[char], lo: usize, hi: usize) -> (r: Result<i32, IntErrorKind>)
    requires
        lo <= hi <= cs@.len(),
    ensures
        r == spec_parse_i32(cs@.subrange(lo as int, hi as int)),
{
    let ghost s = cs@.subrange(lo as int, hi as int);
    if lo == hi {
        return Err(IntErrorKind::Empty);
    }
    let first = cs[lo];
    assert(s[0] == first);
    if hi - lo == 1 && (first == '+' || first == '-') {
        return Err(IntErrorKind::InvalidDigit);
    }
    if first == '-' {
        assert(s.drop_first() =~= cs@.subrange(lo + 1, hi as int));
        proof {
            lemma_scan_down_bound(cs@.subrange(lo + 1, hi as int), 0, i32::MIN as int);
        }
        return match scan_down_exec(cs, lo + 1, hi, -0x8000_0000) {
            Ok(v) => Ok(v as i32),
            Err(e) => Err(e),
        };
    }
    let start = if first == '+' {
        lo + 1
    } else {
        lo
    };
    assert(first == '+' ==> s.drop_first() =~= cs@.subrange(start as int, hi as int));
    proof {
        lemma_scan_up_bound(cs@.subrange(start as int, hi as int), 0, i32::MAX as int);
    }
    match scan_up_exec(cs, start, hi, 0x7FFF_FFFF) {
        Ok(v) => Ok(v as i32),
        Err(e) => Err(e),
    }
}

/// Scanning one more digit after a successful scan.
proof fn lemma_scan_push(s: Seq<char>, c: char, acc: int, max: int, v: int)
    requires
        scan_up(s, acc, max) == Ok::<int, IntErrorKind>(v),
        is_digit(c),
        v * 10 + digit_value(c) <= max,
    ensures
        scan_up(s.push(c), acc, max) == Ok::<int, IntErrorKind>(v * 10 + digit_value(c)),
    decreases s.len(),
{
    let t = s.push(c);
    if s.len() == 0 {
        assert(v == acc);
        assert(t[0] == c);
        assert(t.drop_first() =~= Seq::<char>::empty());
        assert(scan_up(t.drop_first(), acc * 10 + digit_value(c), max) == Ok::<int, IntErrorKind>(
            acc * 10 + digit_value(c),
        ));
    } else {
        assert(t[0] == s[0]);
        assert(t.drop_first() =~= s.drop_first().push(c));
        lemma_scan_push(s.drop_first(), c, acc * 10 + digit_value(s[0]), max, v);
    }
}

/// Scanning a decimal rendering of `n` (at most `max`) gives `n`.
proof fn lemma_scan_decimal(n: nat, max: int)
    requires
        n <= max,
    ensures
        scan_up(decimal_text(n), 0, max) == Ok::<int, IntErrorKind>(n as int),
    decreases n,
{
    let d = (0x30 + n % 10) as u8;
    let c = d as char;
    assert(digit_value(c) == n % 10);
    if n < 10 {
        assert(decimal_text(n) =~= seq![c]);
        assert(seq![c][0] == c);
        assert(seq![c].drop_first() =~= Seq::<char>::empty());
        assert(scan_up(Seq::<char>::empty(), n as int, max) == Ok::<int, IntErrorKind>(n as int));
    } else {
        lemma_scan_decimal(n / 10, max);
        assert(decimal_text(n) =~= decimal_text(n / 10).push(c));
        lemma_scan_push(decimal_text(n / 10), c, 0, max, (n / 10) as int);
    }
}

/// Parsing a number's decimal rendering gives the number back.
pub proof fn lemma_parse_decimal(n: u32)
    ensures
        spec_parse_u32(decimal_text(n as nat)) == Ok::<u32, IntErrorKind>(n),
{
    lemma_decimal_digits(n as nat);
    let t = decimal_text(n as nat);
    assert(0x30 <= decimal(n as nat)[0] <= 0x39);
    assert(t[0] == decimal(n as nat)[0] as char);
    lemma_scan_decimal(n as nat, u32::MAX as int);
}

} // verus!
