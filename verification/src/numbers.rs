//! Numbers in text: reading decimal digits, and writing decimal and hexadecimal ones.
use vstd::prelude::*;

use crate::text::{chars_of, is_space};
#[allow(unused_imports)]
use crate::text::is_word;

verus! {

/// A decimal digit.
pub open spec fn is_digit(c: char) -> bool {
    '0' <= c <= '9'
}

/// A text of decimal digits, at least one.
pub open spec fn all_digits(s: Seq<char>) -> bool {
    &&& s.len() > 0
    &&& forall|i: int| 0 <= i < s.len() ==> is_digit(#[trigger] s[i])
}

/// The number that a digit stands for.
pub open spec fn digit_value(c: char) -> nat {
    (c as nat - '0' as nat) as nat
}

/// The number that a text of digits stands for.
pub open spec fn digits_value(s: Seq<char>) -> nat
    decreases s.len(),
{
    if s.len() == 0 {
        0
    } else {
        digits_value(s.drop_last()) * 10 + digit_value(s.last())
    }
}

/// A number of at most `max`: digits, with or without a plus sign before them.
pub open spec fn unsigned_value(s: Seq<char>, max: nat) -> Option<nat> {
    let digits = if s.len() > 1 && s[0] == '+' {
        s.drop_first()
    } else {
        s
    };
    if all_digits(digits) && digits_value(digits) <= max {
        Some(digits_value(digits))
    } else {
        None
    }
}

/// A number of 64 bits with a sign: digits, with or without a sign before them.
pub open spec fn signed_value(s: Seq<char>) -> Option<int> {
    if s.len() > 1 && s[0] == '-' {
        let digits = s.drop_first();
        if all_digits(digits) && digits_value(digits) <= -(i64::MIN as int) {
            Some(-(digits_value(digits) as int))
        } else {
            None
        }
    } else {
        match unsigned_value(s, i64::MAX as nat) {
            Some(n) => Some(n as int),
            None => None,
        }
    }
}

/// The digit of a number below ten.
pub open spec fn digit_char(d: nat) -> char {
    (('0' as nat) + d) as char
}

/// A number in decimal digits.
pub open spec fn decimal(n: nat) -> Seq<char>
    decreases n,
{
    if n < 10 {
        seq![digit_char(n)]
    } else {
        decimal(n / 10).push(digit_char(n % 10))
    }
}

/// A number in decimal digits, with a minus sign where it is below zero.
pub open spec fn signed_decimal(n: int) -> Seq<char> {
    if n < 0 {
        seq!['-'] + decimal((-n) as nat)
    } else {
        decimal(n as nat)
    }
}

/// The lowercase hexadecimal digit of a number below sixteen.
pub open spec fn hex_digit(d: nat) -> char {
    if d < 10 {
        (('0' as nat) + d) as char
    } else {
        (('a' as nat) + (d - 10)) as char
    }
}

/// The last `width` hexadecimal digits of a number.
pub open spec fn hex(n: nat, width: nat) -> Seq<char>
    decreases width,
{
    if width == 0 {
        seq![]
    } else {
        hex(n / 16, (width - 1) as nat).push(hex_digit(n % 16))
    }
}

/// Digits at the end only make a number larger.
proof fn lemma_digits_value_grows(s: Seq<char>, n: int)
    requires
        0 <= n <= s.len(),
    ensures
        digits_value(s.take(n)) <= digits_value(s),
    decreases s.len(),
{
    if n == s.len() {
        assert(s.take(n) =~= s);
    } else {
        lemma_digits_value_grows(s.drop_last(), n);
        assert(s.drop_last().take(n) =~= s.take(n));
    }
}

/// Reads the digits from `from` on, as a number of at most `max`.
fn read_digits(chars: &Vec<char>, from: usize, max: u64) -> (r: Option<u64>)
    requires
        from <= chars@.len(),
    ensures
        match r {
            Some(n) => all_digits(chars@.skip(from as int)) && digits_value(
                chars@.skip(from as int),
            ) == n && n <= max,
            None => !all_digits(chars@.skip(from as int)) || digits_value(chars@.skip(from as int))
                > max,
        },
{
    let ghost rest = chars@.skip(from as int);
    if from == chars.len() {
        return None;
    }
    let mut value: u64 = 0;
    let mut i: usize = from;
    assert(rest.take(0) =~= seq![]);
    while i < chars.len()
        invariant
            from <= i <= chars@.len(),
            rest == chars@.skip(from as int),
            value <= max,
            value == digits_value(rest.take(i - from)),
            forall|k: int| 0 <= k < i - from ==> is_digit(#[trigger] rest[k]),
        decreases chars@.len() - i,
    {
        let c: char = chars[i];
        assert(rest[i - from] == c);
        if !('0' <= c && c <= '9') {
            return None;
        }
        let digit: u64 = (c as u8 - 48) as u64;
        let wide: u128 = value as u128 * 10 + digit as u128;
        proof {
            let next = rest.take(i - from + 1);
            assert(next.drop_last() =~= rest.take(i - from));
            assert(next.last() == c);
            assert(wide == digits_value(next));
            lemma_digits_value_grows(rest, i - from + 1);
        }
        if wide > max as u128 {
            return None;
        }
        value = wide as u64;
        i += 1;
    }
    assert(rest.take(i - from) =~= rest);
    Some(value)
}

/// Reads a number of at most `max`.
pub fn parse_unsigned(s: &str, max: u64) -> (r: Option<u64>)
    ensures
        match r {
            Some(n) => unsigned_value(s@, max as nat) == Some(n as nat),
            None => unsigned_value(s@, max as nat) is None,
        },
{
    let chars = chars_of(s);
    assert(chars@.skip(0) =~= chars@);
    if chars.len() > 1 && chars[0] == '+' {
        assert(chars@.skip(1) =~= chars@.drop_first());
        read_digits(&chars, 1, max)
    } else {
        read_digits(&chars, 0, max)
    }
}

/// Reads a number of 32 bits.
pub fn parse_u32(s: &str) -> (r: Option<u32>)
    ensures
        match r {
            Some(n) => unsigned_value(s@, u32::MAX as nat) == Some(n as nat),
            None => unsigned_value(s@, u32::MAX as nat) is None,
        },
{
    match parse_unsigned(s, u32::MAX as u64) {
        Some(n) => Some(n as u32),
        None => None,
    }
}

/// Reads a number of the machine's word size.
pub fn parse_usize(s: &str) -> (r: Option<usize>)
    ensures
        match r {
            Some(n) => unsigned_value(s@, usize::MAX as nat) == Some(n as nat),
            None => unsigned_value(s@, usize::MAX as nat) is None,
        },
{
    match parse_unsigned(s, usize::MAX as u64) {
        Some(n) => Some(n as usize),
        None => None,
    }
}

/// Reads a number of 64 bits with a sign.
pub fn parse_i64(s: &str) -> (r: Option<i64>)
    ensures
        match r {
            Some(n) => signed_value(s@) == Some(n as int),
            None => signed_value(s@) is None,
        },
{
    let chars = chars_of(s);
    if chars.len() > 1 && chars[0] == '-' {
        assert(chars@.skip(1) =~= chars@.drop_first());
        match read_digits(&chars, 1, 0x8000_0000_0000_0000) {
            Some(n) => {
                let wide: i128 = -(n as i128);
                Some(wide as i64)
            },
            None => None,
        }
    } else {
        match parse_unsigned(s, i64::MAX as u64) {
            Some(n) => Some(n as i64),
            None => None,
        }
    }
}

/// A number in decimal digits.
pub fn decimal_text(n: u64) -> (r: String)
    ensures
        r@ == decimal(n as nat),
    decreases n,
{
    let mut out: String = if n >= 10 {
        decimal_text(n / 10)
    } else {
        String::new()
    };
    let digit: u8 = (n % 10) as u8;
    let c: char = (48 + digit) as char;
    out.push(c);
    if n < 10 {
        assert(Seq::<char>::empty().push(c) =~= seq![digit_char(n as nat)]);
    }
    out
}

/// A signed number in decimal digits.
pub fn signed_text(n: i64) -> (r: String)
    ensures
        r@ == signed_decimal(n as int),
{
    if n < 0 {
        let size: i128 = -(n as i128);
        let digits = decimal_text(size as u64);
        let mut out: String = String::new();
        out.push('-');
        out.append(digits.as_str());
        assert(out@ =~= seq!['-'] + digits@);
        out
    } else {
        decimal_text(n as u64)
    }
}

/// The last `width` hexadecimal digits of a number.
pub fn hex_text(n: u64, width: usize) -> (r: String)
    ensures
        r@ == hex(n as nat, width as nat),
    decreases width,
{
    if width == 0 {
        let out: String = String::new();
        assert(out@ =~= seq![]);
        return out;
    }
    let mut out: String = hex_text(n / 16, width - 1);
    let digit: u8 = (n % 16) as u8;
    let c: char = if digit < 10 {
        (48 + digit) as char
    } else {
        (87 + digit) as char
    };
    out.push(c);
    out
}

/// The digits of a number are digits, and stand for it.
pub proof fn lemma_decimal(n: nat)
    ensures
        all_digits(decimal(n)),
        digits_value(decimal(n)) == n,
    decreases n,
{
    reveal_with_fuel(digits_value, 2);
    if n < 10 {
        assert(decimal(n).drop_last() =~= seq![]);
    } else {
        lemma_decimal(n / 10);
        assert(decimal(n).drop_last() =~= decimal(n / 10));
        assert forall|i: int| 0 <= i < decimal(n).len() implies is_digit(
            #[trigger] decimal(n)[i],
        ) by {
            if i < decimal(n / 10).len() {
                assert(decimal(n)[i] == decimal(n / 10)[i]);
            }
        }
    }
}

/// Reading what was written gives the number back.
pub proof fn law_unsigned_round_trip(n: nat, max: nat)
    requires
        n <= max,
    ensures
        unsigned_value(decimal(n), max) == Some(n),
        is_word(decimal(n)),
{
    lemma_decimal(n);
    assert(is_digit(decimal(n)[0]));
    assert forall|i: int| 0 <= i < decimal(n).len() implies !is_space(
        #[trigger] decimal(n)[i],
    ) by {
        assert(is_digit(decimal(n)[i]));
    }
}

/// Reading what was written gives the signed number back.
pub proof fn law_signed_round_trip(n: i64)
    ensures
        signed_value(signed_decimal(n as int)) == Some(n as int),
        is_word(signed_decimal(n as int)),
{
    if n < 0 {
        let size = (-(n as int)) as nat;
        let s = signed_decimal(n as int);
        lemma_decimal(size);
        law_unsigned_round_trip(size, size);
        assert(s.drop_first() =~= decimal(size));
        assert forall|i: int| 0 <= i < s.len() implies !is_space(#[trigger] s[i]) by {
            if i > 0 {
                assert(s[i] == decimal(size)[i - 1]);
            }
        }
    } else {
        lemma_decimal(n as nat);
        law_unsigned_round_trip(n as nat, i64::MAX as nat);
        assert(is_digit(decimal(n as nat)[0]));
    }
}

/// Digits stand for a number by tens: one more digit makes it ten times as large and adds its
/// value. Writing a number gives the digits that stand for it, with no zero before them.
pub proof fn law_digits_count_by_tens(s: Seq<char>, c: char, n: nat)
    ensures
        digits_value(s.push(c)) == digits_value(s) * 10 + digit_value(c),
        digits_value(Seq::<char>::empty()) == 0,
        is_digit(c) ==> digit_value(c) <= 9 && digit_char(digit_value(c)) == c,
        digits_value(decimal(n)) == n,
        all_digits(decimal(n)),
        n > 0 ==> decimal(n)[0] != '0',
        n < 10 ==> decimal(n).len() == 1,
{
    assert(s.push(c).drop_last() =~= s);
    lemma_decimal(n);
    lemma_no_leading_zero(n);
}

/// A number that is not zero does not start with a zero.
proof fn lemma_no_leading_zero(n: nat)
    ensures
        n > 0 ==> decimal(n)[0] != '0',
        decimal(n).len() > 0,
    decreases n,
{
    if n >= 10 {
        lemma_no_leading_zero(n / 10);
    }
}

/// A sign before digits makes their number negative or leaves it as it is; anything else is no
/// number.
pub proof fn law_signs_stand_before_digits(digits: Seq<char>)
    requires
        all_digits(digits),
        digits_value(digits) <= i64::MAX,
    ensures
        signed_value(digits) == Some(digits_value(digits) as int),
        signed_value(seq!['+'] + digits) == Some(digits_value(digits) as int),
        signed_value(seq!['-'] + digits) == Some(-(digits_value(digits) as int)),
        unsigned_value(seq!['-'] + digits, u64::MAX as nat) is None,
        signed_value(Seq::<char>::empty()) is None,
        signed_value(digits + seq![' ']) is None,
{
    assert((seq!['+'] + digits).drop_first() =~= digits);
    assert((seq!['-'] + digits).drop_first() =~= digits);
    assert(is_digit(digits[0]));
    let minus = seq!['-'] + digits;
    assert(!is_digit(minus[0]));
    let spaced = digits + seq![' '];
    assert(spaced[0] == digits[0]);
    assert(!is_digit(spaced[spaced.len() - 1]));
}

} // verus!
