//! Whole numbers written in decimal: reading them from a text and writing
//! them as one.
//!
//! A number is read as the standard library reads one from a string: an
//! optional sign, then one or more of the digits `0` to `9` and nothing else,
//! and the value has to fit the type. An unsigned number takes `+` as its
//! only sign.

use vstd::prelude::*;

verus! {

/// Whether `c` is one of the digits `0` to `9`.
pub open spec fn is_digit(c: char) -> bool {
    0x30 <= c as u32 <= 0x39
}

/// The value of the digit `c`; 0 for any other character.
pub open spec fn digit_value(c: char) -> nat {
    if is_digit(c) {
        (c as u32 - 0x30) as nat
    } else {
        0
    }
}

/// The digit that stands for `d`, for `d` below ten.
pub open spec fn digit_char(d: nat) -> char
    recommends
        d < 10,
{
    (0x30 + d) as char
}

/// Whether `s` holds digits only.
pub open spec fn all_digits(s: Seq<char>) -> bool {
    forall|i: int| 0 <= i < s.len() ==> is_digit(#[trigger] s[i])
}

/// The number that the digits of `s` stand for, the first digit weighing
/// most.
pub open spec fn digits_value(s: Seq<char>) -> nat
    decreases s.len(),
{
    if s.len() == 0 {
        0
    } else {
        digits_value(s.drop_last()) * 10 + digit_value(s.last())
    }
}

/// The number that `s` stands for, where `s` is one or more digits.
pub open spec fn parsed_nat(s: Seq<char>) -> Option<nat> {
    if s.len() > 0 && all_digits(s) {
        Some(digits_value(s))
    } else {
        None
    }
}

/// The number that `s` stands for, where `s` is one or more digits after an
/// optional `+` or `-`.
pub open spec fn parsed_int(s: Seq<char>) -> Option<int> {
    if s.len() > 0 && s[0] == '-' {
        match parsed_nat(s.drop_first()) {
            Some(n) => Some(-(n as int)),
            None => None,
        }
    } else if s.len() > 0 && s[0] == '+' {
        match parsed_nat(s.drop_first()) {
            Some(n) => Some(n as int),
            None => None,
        }
    } else {
        match parsed_nat(s) {
            Some(n) => Some(n as int),
            None => None,
        }
    }
}

/// What `s` reads as a signed number of 64 bits, if it stands for one.
pub open spec fn parsed_i64(s: Seq<char>) -> Option<i64> {
    match parsed_int(s) {
        Some(v) => if i64::MIN <= v <= i64::MAX {
            Some(v as i64)
        } else {
            None
        },
        None => None,
    }
}

/// What `s` reads as an unsigned number of 64 bits, if it stands for one.
pub open spec fn parsed_u64(s: Seq<char>) -> Option<u64> {
    if s.len() > 0 && s[0] == '-' {
        None
    } else {
        match parsed_int(s) {
            Some(v) => if v <= u64::MAX {
                Some(v as u64)
            } else {
                None
            },
            None => None,
        }
    }
}

/// The digits of `n`, without leading zeros; `0` for zero.
pub open spec fn rendered_nat(n: nat) -> Seq<char>
    decreases n,
{
    if n < 10 {
        seq![digit_char(n)]
    } else {
        rendered_nat(n / 10).push(digit_char(n % 10))
    }
}

/// The digits of `v`, after a `-` where `v` is negative.
pub open spec fn rendered_int(v: int) -> Seq<char> {
    if v < 0 {
        seq!['-'] + rendered_nat((-v) as nat)
    } else {
        rendered_nat(v as nat)
    }
}

/// The digits of a text stand for at least as much as those of any of its
/// prefixes.
pub proof fn lemma_digits_value_prefix(s: Seq<char>, k: int)
    requires
        0 <= k <= s.len(),
    ensures
        digits_value(s.take(k)) <= digits_value(s),
    decreases s.len(),
{
    if k < s.len() {
        assert(s.drop_last().take(k) == s.take(k));
        lemma_digits_value_prefix(s.drop_last(), k);
    } else {
        assert(s.take(k) == s);
    }
}

/// What is written for a number is one or more digits, and they stand for
/// that number.
pub proof fn lemma_rendered_nat_parses(n: nat)
    ensures
        rendered_nat(n).len() > 0,
        all_digits(rendered_nat(n)),
        digits_value(rendered_nat(n)) == n,
    decreases n,
{
    if n < 10 {
        let s = seq![digit_char(n)];
        assert(s.drop_last() == Seq::<char>::empty());
        assert(digits_value(s.drop_last()) == 0);
        assert(s.last() == digit_char(n));
    } else {
        lemma_rendered_nat_parses(n / 10);
        let s = rendered_nat(n / 10).push(digit_char(n % 10));
        assert(s.drop_last() == rendered_nat(n / 10));
        assert(s.last() == digit_char(n % 10));
    }
}

/// Reading what was written for a number gives the number back.
pub proof fn lemma_parse_rendered_int(v: int)
    ensures
        parsed_int(rendered_int(v)) == Some(v),
{
    if v < 0 {
        let body = rendered_nat((-v) as nat);
        lemma_rendered_nat_parses((-v) as nat);
        assert((seq!['-'] + body).drop_first() == body);
    } else {
        lemma_rendered_nat_parses(v as nat);
        let s = rendered_nat(v as nat);
        assert(is_digit(s[0]));
    }
}

/// Reading what was written for a signed number of 64 bits gives it back.
pub proof fn lemma_parse_rendered_i64(v: i64)
    ensures
        parsed_i64(rendered_int(v as int)) == Some(v),
{
    lemma_parse_rendered_int(v as int);
}

/// Reading what was written for an unsigned number of 64 bits gives it back.
pub proof fn lemma_parse_rendered_u64(v: u64)
    ensures
        parsed_u64(rendered_int(v as int)) == Some(v),
{
    lemma_parse_rendered_int(v as int);
    lemma_rendered_nat_parses(v as nat);
    assert(is_digit(rendered_nat(v as nat)[0]));
}

/// The number that the characters of `s` from position `from` on stand for,
/// where they are one or more digits and the number is not above `limit`.
fn parse_digits(s: &[char], from: usize, limit: u64) -> (r: Option<u64>)
    requires
        from <= s.len(),
    ensures
        r == match parsed_nat(s@.skip(from as int)) {
            Some(n) => if n <= limit {
                Some(n as u64)
            } else {
                None
            },
            None => None,
        },
{
    let ghost body = s@.skip(from as int);
    if from == s.len() {
        return None;
    }
    let mut acc: u64 = 0;
    let mut i: usize = from;
    assert(body.take(0) == Seq::<char>::empty());
    while i < s.len()
        invariant
            from <= i <= s.len(),
            body == s@.skip(from as int),
            all_digits(body.take(i - from)),
            acc == digits_value(body.take(i - from)),
            acc <= limit,
        decreases s.len() - i,
    {
        let c = s[i];
        let n: u32 = c as u32;
        if n < 0x30 || n > 0x39 {
            assert(!is_digit(body[i - from]));
            return None;
        }
        let d: u64 = (n - 0x30) as u64;
        proof {
            let next = body.take(i - from + 1);
            assert(next.drop_last() == body.take(i - from));
            assert(next.last() == c);
            assert(digits_value(next) == acc * 10 + d);
            lemma_digits_value_prefix(body, i - from + 1);
        }
        let wide: u128 = acc as u128 * 10 + d as u128;
        if wide > limit as u128 {
            return None;
        }
        acc = wide as u64;
        i += 1;
    }
    assert(body.take(i - from) == body);
    Some(acc)
}

/// Reads `s` as a signed number of 64 bits.
pub fn parse_i64(s: &[char]) -> (r: Option<i64>)
    ensures
        r == parsed_i64(s@),
{
    assert(s@.skip(0) == s@);
    if s.len() > 0 && s[0] == '-' {
        assert(s@.skip(1) == s@.drop_first());
        match parse_digits(s, 1, 0x8000_0000_0000_0000) {
            Some(m) => if m == 0x8000_0000_0000_0000 {
                Some(i64::MIN)
            } else {
                Some(-(m as i64))
            },
            None => None,
        }
    } else if s.len() > 0 && s[0] == '+' {
        assert(s@.skip(1) == s@.drop_first());
        match parse_digits(s, 1, 0x7fff_ffff_ffff_ffff) {
            Some(m) => Some(m as i64),
            None => None,
        }
    } else {
        match parse_digits(s, 0, 0x7fff_ffff_ffff_ffff) {
            Some(m) => Some(m as i64),
            None => None,
        }
    }
}

/// Reads `s` as an unsigned number of 64 bits.
pub fn parse_u64(s: &[char]) -> (r: Option<u64>)
    ensures
        r == parsed_u64(s@),
{
    assert(s@.skip(0) == s@);
    if s.len() > 0 && s[0] == '+' {
        assert(s@.skip(1) == s@.drop_first());
        parse_digits(s, 1, u64::MAX)
    } else {
        parse_digits(s, 0, u64::MAX)
    }
}

/// Writes `n` in decimal.
pub fn render_u64(n: u64) -> (r: Vec<char>)
    ensures
        r@ == rendered_nat(n as nat),
    decreases n,
{
    if n < 10 {
        let mut r: Vec<char> = Vec::new();
        r.push((0x30u8 + n as u8) as char);
        r
    } else {
        let mut r = render_u64(n / 10);
        r.push((0x30u8 + (n % 10) as u8) as char);
        r
    }
}

/// Writes `v` in decimal, with a `-` in front where it is negative.
pub fn render_i64(v: i64) -> (r: Vec<char>)
    ensures
        r@ == rendered_int(v as int),
{
    if v < 0 {
        let magnitude: u64 = if v == i64::MIN {
            0x8000_0000_0000_0000
        } else {
            (-v) as u64
        };
        let digits = render_u64(magnitude);
        let mut r: Vec<char> = Vec::new();
        r.push('-');
        crate::text::append(&mut r, digits.as_slice());
        r
    } else {
        render_u64(v as u64)
    }
}

} // verus!
