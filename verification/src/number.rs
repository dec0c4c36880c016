//! Numbers as text: decimal reading and writing, fixed-width hexadecimal, and
//! byte counts rounded to tenths of a megabyte.

use vstd::prelude::*;
use vstd::string::*;

use crate::text::{is_digit, is_lower_hex_digit, to_chars};

verus! {

/// Bytes to a megabyte.
pub const MEGABYTE: u64 = 1_048_576;

/// The character of a decimal digit.
pub open spec fn digit(n: nat) -> char {
    (('0' as u32) + n) as char
}

/// A number in decimal, without leading zeros.
pub open spec fn decimal(n: nat) -> Seq<char>
    decreases n,
{
    if n < 10 {
        seq![digit(n)]
    } else {
        decimal(n / 10).push(digit(n % 10))
    }
}

/// The number that a row of decimal digits stands for.
pub open spec fn digits_value(s: Seq<char>) -> nat
    decreases s.len(),
{
    if s.len() == 0 {
        0
    } else {
        digits_value(s.drop_last()) * 10 + ((s.last() as u32) - ('0' as u32)) as nat
    }
}

/// Whether a text is a row of decimal digits.
pub open spec fn all_digits(s: Seq<char>) -> bool {
    forall|i: int| 0 <= i < s.len() ==> is_digit(#[trigger] s[i])
}

/// A number without the plus sign that may stand before it.
pub open spec fn unsigned_part(s: Seq<char>) -> Seq<char> {
    if s.len() > 0 && s[0] == '+' {
        s.skip(1)
    } else {
        s
    }
}

/// The number that a text stands for, as `str::parse` reads an unsigned
/// integer: an optional plus sign, then one or more decimal digits, with a
/// value of at most `max`.
pub open spec fn parsed(s: Seq<char>, max: nat) -> Option<nat> {
    let body = unsigned_part(s);
    if body.len() > 0 && all_digits(body) && digits_value(body) <= max {
        Some(digits_value(body))
    } else {
        None
    }
}

/// The character of a hexadecimal digit, in lower case.
pub open spec fn hex_digit(n: nat) -> char {
    if n < 10 {
        digit(n)
    } else {
        (('a' as u32) + n - 10) as char
    }
}

/// The low `width` hexadecimal digits of a number, the highest first.
pub open spec fn hex(n: nat, width: nat) -> Seq<char>
    decreases width,
{
    if width == 0 {
        Seq::empty()
    } else {
        hex(n / 16, (width - 1) as nat).push(hex_digit(n % 16))
    }
}

/// A byte count in tenths of a megabyte: the nearest tenth, and of two equally
/// near the even one.
pub open spec fn megabyte_tenths(bytes: nat) -> nat {
    let q = bytes * 10 / (MEGABYTE as nat);
    let r = bytes * 10 % (MEGABYTE as nat);
    if 2 * r > MEGABYTE || (2 * r == MEGABYTE && q % 2 == 1) {
        q + 1
    } else {
        q
    }
}

/// A byte count in megabytes, with one digit behind the point.
pub open spec fn megabytes(bytes: nat) -> Seq<char> {
    let t = megabyte_tenths(bytes);
    decimal(t / 10) + seq!['.', digit(t % 10)]
}

/// Every decimal digit has its own character, and reads back.
pub proof fn lemma_digit(n: nat)
    requires
        n < 10,
    ensures
        is_digit(digit(n)),
        (digit(n) as u32) - ('0' as u32) == n,
{
}

/// Writing a number in decimal yields digits, the first of them no plus sign,
/// and they read back as the number.
pub proof fn lemma_decimal(n: nat)
    ensures
        decimal(n).len() > 0,
        all_digits(decimal(n)),
        digits_value(decimal(n)) == n,
    decreases n,
{
    if n < 10 {
        lemma_digit(n);
        let s = decimal(n);
        assert(s.drop_last() =~= Seq::<char>::empty());
        assert(digits_value(s.drop_last()) == 0);
    } else {
        lemma_decimal(n / 10);
        lemma_digit(n % 10);
        let s = decimal(n);
        assert(s.drop_last() =~= decimal(n / 10));
    }
}

/// A number that is written in decimal reads back as itself.
pub proof fn lemma_parsed_decimal(n: nat, max: nat)
    requires
        n <= max,
    ensures
        parsed(decimal(n), max) == Some(n),
{
    lemma_decimal(n);
    assert(is_digit(decimal(n)[0]));
    assert(unsigned_part(decimal(n)) == decimal(n));
}

/// Two numbers with the same decimal digits are equal.
pub proof fn lemma_decimal_injective(a: nat, b: nat)
    requires
        decimal(a) == decimal(b),
    ensures
        a == b,
{
    lemma_decimal(a);
    lemma_decimal(b);
}

/// Fixed-width hexadecimal has its width and is in lower case.
pub proof fn lemma_hex(n: nat, width: nat)
    ensures
        hex(n, width).len() == width,
        forall|i: int| 0 <= i < width ==> is_lower_hex_digit(#[trigger] hex(n, width)[i]),
    decreases width,
{
    if width > 0 {
        lemma_hex(n / 16, (width - 1) as nat);
        let high = hex(n / 16, (width - 1) as nat);
        assert forall|i: int| 0 <= i < width implies is_lower_hex_digit(
            #[trigger] hex(n, width)[i],
        ) by {
            if i < width - 1 {
                assert(hex(n, width)[i] == high[i]);
            } else {
                let d = n % 16;
                assert(d < 16);
                if d < 10 {
                    lemma_digit(d);
                }
            }
        }
    }
}

/// A digit's value.
proof fn lemma_hex_digit_injective(a: nat, b: nat)
    requires
        a < 16,
        b < 16,
        hex_digit(a) == hex_digit(b),
    ensures
        a == b,
{
}

/// Two numbers below `16^width` with the same `width` digits are equal.
pub proof fn lemma_hex_injective(a: nat, b: nat, width: nat)
    requires
        a < vstd::arithmetic::power::pow(16, width),
        b < vstd::arithmetic::power::pow(16, width),
        hex(a, width) == hex(b, width),
    ensures
        a == b,
    decreases width,
{
    reveal(vstd::arithmetic::power::pow);
    if width > 0 {
        let w = (width - 1) as nat;
        assert(hex(a, width).drop_last() =~= hex(a / 16, w));
        assert(hex(b, width).drop_last() =~= hex(b / 16, w));
        assert(hex(a, width).last() == hex_digit(a % 16));
        assert(hex(b, width).last() == hex_digit(b % 16));
        lemma_hex_digit_injective(a % 16, b % 16);
        assert(vstd::arithmetic::power::pow(16, width) == 16 * vstd::arithmetic::power::pow(16, w));
        lemma_hex_injective(a / 16, b / 16, w);
    }
}

/// A row of digits only grows in value.
proof fn lemma_digits_value_grows(s: Seq<char>, k: int)
    requires
        0 <= k <= s.len(),
        all_digits(s),
    ensures
        digits_value(s.take(k)) <= digits_value(s),
    decreases s.len() - k,
{
    if k < s.len() {
        let t = s.take(k + 1);
        assert(t.drop_last() =~= s.take(k));
        assert(is_digit(s[k]));
        assert(digits_value(s.take(k)) <= digits_value(t));
        lemma_digits_value_grows(s, k + 1);
    } else {
        assert(s.take(k) =~= s);
    }
}

/// Writes a number in decimal.
pub fn format_decimal(n: u64) -> (r: String)
    ensures
        r@ == decimal(n as nat),
    decreases n,
{
    if n < 10 {
        let mut out = String::new();
        out.push((48u8 + n as u8) as char);
        assert(out@ =~= seq![digit(n as nat)]);
        out
    } else {
        let mut out = format_decimal(n / 10);
        out.push((48u8 + (n % 10) as u8) as char);
        out
    }
}

/// Reads an unsigned decimal number of at most `max`.
pub fn parse_decimal(s: &str, max: u64) -> (r: Option<u64>)
    ensures
        r is Some <==> parsed(s@, max as nat) is Some,
        r matches Some(v) ==> parsed(s@, max as nat) == Some(v as nat),
{
    let c: Vec<char> = to_chars(s);
    let start: usize = if c.len() > 0 && c[0] == '+' {
        1
    } else {
        0
    };
    let ghost body = unsigned_part(s@);
    assert(body =~= c@.skip(start as int));
    if start == c.len() {
        return None;
    }
    let mut value: u64 = 0;
    assert(body.take(0) =~= Seq::<char>::empty());
    for i in start..c.len()
        invariant
            c@ == s@,
            start <= c@.len(),
            body == unsigned_part(s@),
            body == c@.skip(start as int),
            value <= max,
            value == digits_value(body.take(i - start)),
            all_digits(body.take(i - start)),
    {
        let ghost k = i - start;
        let d = c[i];
        assert(d == body[k]);
        assert(body.take(k + 1).drop_last() =~= body.take(k));
        if d < '0' || '9' < d {
            assert(!is_digit(body[k]));
            return None;
        }
        let step: u64 = (d as u8 - 48u8) as u64;
        assert(digits_value(body.take(k + 1)) == value * 10 + step);
        assert(all_digits(body.take(k + 1))) by {
            assert forall|j: int| 0 <= j < k + 1 implies is_digit(
                #[trigger] body.take(k + 1)[j],
            ) by {
                if j < k {
                    assert(body.take(k)[j] == body.take(k + 1)[j]);
                }
            }
        }
        if value > max / 10 || step > max - value * 10 {
            proof {
                if all_digits(body) {
                    lemma_digits_value_grows(body, k + 1);
                }
            }
            return None;
        }
        value = value * 10 + step;
    }
    assert(body.take(body.len() as int) =~= body);
    Some(value)
}

/// The low `width` hexadecimal digits of a number.
pub fn format_hex(n: u32, width: u32) -> (r: String)
    ensures
        r@ == hex(n as nat, width as nat),
    decreases width,
{
    if width == 0 {
        String::new()
    } else {
        let mut out = format_hex(n / 16, width - 1);
        let d: u8 = (n % 16) as u8;
        out.push(
            if d < 10 {
                (48u8 + d) as char
            } else {
                (87u8 + d) as char
            },
        );
        out
    }
}

/// A byte count in megabytes, with one digit behind the point.
pub fn format_megabytes(bytes: u64) -> (r: String)
    ensures
        r@ == megabytes(bytes as nat),
{
    let scaled: u128 = bytes as u128 * 10;
    let q: u64 = (scaled / MEGABYTE as u128) as u64;
    let rest: u64 = (scaled % MEGABYTE as u128) as u64;
    let t: u64 = if 2 * rest > MEGABYTE || (2 * rest == MEGABYTE && q % 2 == 1) {
        q + 1
    } else {
        q
    };
    let mut out = format_decimal(t / 10);
    out.push('.');
    out.push((48u8 + (t % 10) as u8) as char);
    assert(out@ =~= megabytes(bytes as nat));
    out
}

// ---------------------------------------------------------------------- laws

/// Decimal digits stand for their number, each ten times what it would stand for
/// one place further right.
pub proof fn law_digits_have_their_places(s: Seq<char>, c: char)
    requires
        '0' <= c <= '9',
    ensures
        digits_value(Seq::<char>::empty()) == 0,
        digits_value(s.push(c)) == 10 * digits_value(s) + (c as u32 - 48),
{
    assert(s.push(c).drop_last() =~= s);
}

/// A number is written in decimal digits that stand for it, without a zero before
/// them.
pub proof fn law_decimal_is_the_number(n: nat)
    ensures
        decimal(n).len() > 0,
        forall|i: int| 0 <= i < decimal(n).len() ==> '0' <= #[trigger] decimal(n)[i] <= '9',
        digits_value(decimal(n)) == n,
        n > 0 ==> decimal(n)[0] != '0',
        n == 0 ==> decimal(n) == seq!['0'],
    decreases n,
{
    lemma_decimal(n);
    assert forall|i: int| 0 <= i < decimal(n).len() implies '0' <= #[trigger] decimal(n)[i]
        <= '9' by {
        assert(is_digit(decimal(n)[i]));
    }
    if n >= 10 {
        law_decimal_is_the_number(n / 10);
        assert(decimal(n)[0] == decimal(n / 10)[0]);
    } else {
        lemma_digit(n);
    }
}

/// A row of digits reads as the number it stands for, with or without a plus sign
/// before it, unless that number is too large.
pub proof fn law_digits_are_read(s: Seq<char>, max: nat)
    requires
        s.len() > 0,
        forall|i: int| 0 <= i < s.len() ==> '0' <= #[trigger] s[i] <= '9',
    ensures
        digits_value(s) <= max ==> parsed(s, max) == Some(digits_value(s)),
        digits_value(s) > max ==> parsed(s, max) is None,
        parsed(seq!['+'] + s, max) == parsed(s, max),
{
    assert forall|i: int| 0 <= i < s.len() implies is_digit(#[trigger] s[i]) by {}
    assert('0' <= s[0] <= '9');
    assert((seq!['+'] + s).skip(1) =~= s);
}

/// What holds anything but digits behind an optional plus sign, or no digit at
/// all, is no number.
pub proof fn law_other_texts_are_no_numbers(s: Seq<char>, max: nat, k: int)
    ensures
        parsed(Seq::<char>::empty(), max) is None,
        parsed(seq!['+'], max) is None,
        0 <= k < s.len() && !('0' <= s[k] <= '9') && !(k == 0 && s[0] == '+') ==> parsed(s, max)
            is None,
{
    assert(seq!['+'].skip(1) =~= Seq::<char>::empty());
    if 0 <= k < s.len() && !('0' <= s[k] <= '9') && !(k == 0 && s[0] == '+') {
        let body = unsigned_part(s);
        if s[0] == '+' {
            assert(body[k - 1] == s[k]);
            assert(!is_digit(body[k - 1]));
        } else {
            assert(!is_digit(body[k]));
        }
    }
}

/// Each hexadecimal digit stands for its four bits, the lowest at the end.
pub proof fn law_hex_digits_have_their_places(n: nat, width: nat)
    ensures
        hex(n, 0) == Seq::<char>::empty(),
        hex(n, width + 1).len() == width + 1,
        hex(n, width + 1).take(width as int) == hex(n / 16, width),
        hex(n, width + 1)[width as int] == seq![
            '0',
            '1',
            '2',
            '3',
            '4',
            '5',
            '6',
            '7',
            '8',
            '9',
            'a',
            'b',
            'c',
            'd',
            'e',
            'f',
        ][(n % 16) as int],
{
    lemma_hex(n, width + 1);
    lemma_hex(n / 16, width);
    assert(hex(n, width + 1).take(width as int) =~= hex(n / 16, width));
    let d = n % 16;
    assert(d < 16);
}

/// Megabytes are written to the nearest tenth, and to the even one of two that are
/// equally near.
pub proof fn law_megabytes_are_the_nearest(bytes: nat)
    ensures
        exists|tenths: nat|
            {
                &&& 2 * (10 * bytes) <= 2 * (#[trigger] (tenths * 1_048_576)) + 1_048_576
                &&& 2 * (tenths * 1_048_576) <= 2 * (10 * bytes) + 1_048_576
                &&& 2 * (10 * bytes) == 2 * (tenths * 1_048_576) + 1_048_576 || 2 * (tenths
                    * 1_048_576) == 2 * (10 * bytes) + 1_048_576 ==> tenths % 2 == 0
                &&& megabytes(bytes) == decimal(tenths / 10) + seq!['.'] + decimal(tenths % 10)
            },
{
    let t = megabyte_tenths(bytes);
    let d = t % 10;
    assert(d < 10);
    assert(decimal(d) == seq![digit(d)]);
    assert(megabytes(bytes) =~= decimal(t / 10) + seq!['.'] + decimal(t % 10));
    let marker = t * 1_048_576;
}

} // verus!
