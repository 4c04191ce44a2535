//! Whole numbers in decimal notation.
use vstd::prelude::*;

verus! {

/// Whether `c` is one of the digits `0` to `9`.
pub open spec fn is_digit(c: char) -> bool {
    0x30 <= c as u32 <= 0x39
}

/// The number that the digit `c` stands for.
pub open spec fn digit_value(c: char) -> nat {
    (c as u32 - 0x30) as nat
}

/// The digit that stands for `d`, a number below ten.
pub open spec fn digit_char(d: nat) -> char {
    (0x30 + d) as char
}

/// Whether `s` holds digits only.
pub open spec fn all_digits(s: Seq<char>) -> bool {
    forall|i: int| 0 <= i < s.len() ==> is_digit(#[trigger] s[i])
}

/// The number that the digits `s` denote, the first digit counting most.
pub open spec fn decimal_value(s: Seq<char>) -> nat
    decreases s.len(),
{
    if s.len() == 0 {
        0
    } else {
        decimal_value(s.drop_last()) * 10 + digit_value(s.last())
    }
}

/// The number below or at `max` that the digits `s` denote, if `s` is a
/// number of at least one digit that does not exceed `max`.
pub open spec fn parse_digits(s: Seq<char>, max: nat) -> Option<nat> {
    if s.len() > 0 && all_digits(s) && decimal_value(s) <= max {
        Some(decimal_value(s))
    } else {
        None
    }
}

/// The number that `s` denotes as an unsigned number of at most `max`: digits,
/// with an optional `+` before them.
pub open spec fn parse_unsigned(s: Seq<char>, max: nat) -> Option<nat> {
    if s.len() > 0 && s[0] == '+' {
        parse_digits(s.drop_first(), max)
    } else {
        parse_digits(s, max)
    }
}

/// The number that `s` denotes as a signed number between `min` and `max`:
/// digits, with an optional `+` or `-` before them.
pub open spec fn parse_signed(s: Seq<char>, min: int, max: int) -> Option<int>
    recommends
        min <= 0 <= max,
{
    if s.len() > 0 && s[0] == '-' {
        match parse_digits(s.drop_first(), (-min) as nat) {
            Some(n) => Some(-(n as int)),
            None => None,
        }
    } else {
        match parse_unsigned(s, max as nat) {
            Some(n) => Some(n as int),
            None => None,
        }
    }
}

/// The decimal notation of `n`, without leading zeros.
pub open spec fn decimal(n: nat) -> Seq<char>
    decreases n,
{
    if n < 10 {
        seq![digit_char(n)]
    } else {
        decimal(n / 10).push(digit_char(n % 10))
    }
}

/// The value of a number's first digits is at most the value of the number.
pub proof fn lemma_value_of_prefix(s: Seq<char>, i: int)
    requires
        0 <= i <= s.len(),
    ensures
        decimal_value(s.take(i)) <= decimal_value(s),
    decreases s.len(),
{
    if i == s.len() {
        assert(s.take(i) == s);
    } else {
        lemma_value_of_prefix(s.drop_last(), i);
        assert(s.drop_last().take(i) == s.take(i));
    }
}

/// The number that the digits of `v` from `start` on denote, if it is at most `max`.
pub fn read_digits(v: &Vec<char>, start: usize, max: u64) -> (r: Option<u64>)
    requires
        start <= v.len(),
    ensures
        match r {
            Some(n) => parse_digits(v@.subrange(start as int, v.len() as int), max as nat) == Some(
                n as nat,
            ),
            None => parse_digits(v@.subrange(start as int, v.len() as int), max as nat) is None,
        },
{
    let ghost s = v@.subrange(start as int, v.len() as int);
    if start == v.len() {
        return None;
    }
    let mut acc: u64 = 0;
    let mut i: usize = start;
    while i < v.len()
        invariant
            start <= i <= v.len(),
            s == v@.subrange(start as int, v.len() as int),
            all_digits(s.take(i - start)),
            acc == decimal_value(s.take(i - start)),
            acc <= max,
        decreases v.len() - i,
    {
        let c: u32 = v[i] as u32;
        assert(s[i - start] == v@[i as int]);
        assert(s.take(i - start + 1).drop_last() == s.take(i - start));
        if c < 0x30 || c > 0x39 {
            assert(!is_digit(s[i - start]));
            return None;
        }
        let d: u64 = (c - 0x30) as u64;
        let next: u128 = acc as u128 * 10 + d as u128;
        assert(next == decimal_value(s.take(i - start + 1)));
        if next > max as u128 {
            proof {
                lemma_value_of_prefix(s, i - start + 1);
            }
            return None;
        }
        acc = next as u64;
        i += 1;
    }
    assert(s.take(i - start) == s);
    Some(acc)
}

/// The number that `v` denotes as a `u32`.
pub fn read_u32(v: &Vec<char>) -> (r: Option<u32>)
    ensures
        match r {
            Some(n) => parse_unsigned(v@, u32::MAX as nat) == Some(n as nat),
            None => parse_unsigned(v@, u32::MAX as nat) is None,
        },
{
    let start: usize = if v.len() > 0 && v[0] == '+' {
        1
    } else {
        0
    };
    assert(v@.subrange(1, v.len() as int) == v@.drop_first());
    assert(v@.subrange(0, v.len() as int) == v@);
    match read_digits(v, start, 0xFFFF_FFFF) {
        Some(n) => Some(n as u32),
        None => None,
    }
}

/// The number that `v` denotes as an `isize`.
pub fn read_isize(v: &Vec<char>) -> (r: Option<isize>)
    ensures
        match r {
            Some(n) => parse_signed(v@, isize::MIN as int, isize::MAX as int) == Some(n as int),
            None => parse_signed(v@, isize::MIN as int, isize::MAX as int) is None,
        },
{
    assert(v@.subrange(1, v.len() as int) == v@.drop_first());
    assert(v@.subrange(0, v.len() as int) == v@);
    let max: u64 = isize::MAX as u64;
    if v.len() > 0 && v[0] == '-' {
        match read_digits(v, 1, max + 1) {
            Some(n) => {
                if n == max + 1 {
                    Some(isize::MIN)
                } else {
                    Some(-(n as isize))
                }
            },
            None => None,
        }
    } else {
        let start: usize = if v.len() > 0 && v[0] == '+' {
            1
        } else {
            0
        };
        match read_digits(v, start, max) {
            Some(n) => Some(n as isize),
            None => None,
        }
    }
}

/// Appends the decimal notation of `n` to `out`.
pub fn push_decimal(out: &mut Vec<char>, n: u64)
    ensures
        final(out)@ == old(out)@ + decimal(n as nat),
    decreases n,
{
    if n >= 10 {
        push_decimal(out, n / 10);
    }
    let d: u8 = (n % 10) as u8;
    out.push((0x30 + d) as char);
    assert(((0x30 + d) as char) == digit_char((n % 10) as nat));
    assert(out@ == old(out)@ + decimal(n as nat));
}

/// Decimal notation consists of digits, has at least one, and denotes the
/// number that it was made from.
pub proof fn lemma_decimal_is_number(n: nat)
    ensures
        decimal(n).len() > 0,
        all_digits(decimal(n)),
        decimal_value(decimal(n)) == n,
    decreases n,
{
    if n < 10 {
        assert(decimal(n).drop_last() =~= Seq::<char>::empty());
        assert(decimal_value(decimal(n).drop_last()) == 0);
    } else {
        lemma_decimal_is_number(n / 10);
        let d = decimal(n / 10);
        assert(decimal(n).drop_last() =~= d);
        assert(is_digit(digit_char(n % 10)));
    }
}

/// Reading the decimal notation of a number gives the number back.
pub proof fn lemma_parse_decimal(n: nat, max: nat)
    requires
        n <= max,
    ensures
        parse_unsigned(decimal(n), max) == Some(n),
{
    lemma_decimal_is_number(n);
    assert(is_digit(decimal(n)[0]));
    assert(parse_digits(decimal(n), max) == Some(n));
}

} // verus!
