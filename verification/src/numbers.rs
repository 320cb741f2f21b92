//! Decimal and hexadecimal number formats.

use vstd::prelude::*;
use vstd::slice::slice_subrange;
use crate::text::{cat, chars_of, string_of};

verus! {

// ── Digits ──────────────────────────────────────────────────────────────────

/// The value of a digit in a radix up to sixteen.
pub open spec fn digit_value(c: char, radix: nat) -> Option<nat> {
    let d = if '0' <= c && c <= '9' {
        Some((c as u32 - '0' as u32) as nat)
    } else if 'a' <= c && c <= 'f' {
        Some((c as u32 - 'a' as u32 + 10) as nat)
    } else if 'A' <= c && c <= 'F' {
        Some((c as u32 - 'A' as u32 + 10) as nat)
    } else {
        None
    };
    if d is Some && d->0 < radix {
        d
    } else {
        None
    }
}

/// Reads one digit.
pub fn digit_of(c: char, radix: u32) -> (r: Option<u32>)
    requires
        2 <= radix <= 16,
    ensures
        r is Some <==> digit_value(c, radix as nat) is Some,
        r matches Some(d) ==> digit_value(c, radix as nat) == Some(d as nat) && d < radix,
{
    let n: u32 = c as u32;
    let d: u32 = if 48 <= n && n <= 57 {
        n - 48
    } else if 97 <= n && n <= 102 {
        n - 87
    } else if 65 <= n && n <= 70 {
        n - 55
    } else {
        return None;
    };
    if d < radix {
        Some(d)
    } else {
        None
    }
}

/// The value of a string of digits; none where a character is not a digit.
pub open spec fn digits_value(s: Seq<char>, radix: nat) -> Option<nat>
    decreases s.len(),
{
    if s.len() == 0 {
        Some(0)
    } else {
        match (digits_value(s.drop_last(), radix), digit_value(s.last(), radix)) {
            (Some(v), Some(d)) => Some(v * radix + d),
            _ => None,
        }
    }
}

/// A longer string of digits has no smaller value, and none if a part has none.
pub proof fn lemma_digits_prefix(s: Seq<char>, k: int, radix: nat)
    requires
        0 <= k <= s.len(),
        radix >= 1,
    ensures
        digits_value(s.take(k), radix) is None ==> digits_value(s, radix) is None,
        digits_value(s, radix) matches Some(v) ==> digits_value(s.take(k), radix) matches Some(w)
            && w <= v,
    decreases s.len(),
{
    if k == s.len() {
        assert(s.take(k) =~= s);
    } else {
        lemma_digits_prefix(s.drop_last(), k, radix);
        assert(s.drop_last().take(k) =~= s.take(k));
        if let Some(v) = digits_value(s.drop_last(), radix) {
            assert(v * radix >= v) by (nonlinear_arith)
                requires
                    radix >= 1,
            ;
        }
    }
}

/// The digits of a number that may carry a plus sign.
pub open spec fn after_plus(s: Seq<char>) -> Seq<char> {
    if s.len() > 1 && s[0] == '+' {
        s.skip(1)
    } else {
        s
    }
}

/// An unsigned number up to `max`, with an optional plus sign.
pub open spec fn unsigned(s: Seq<char>, radix: nat, max: nat) -> Option<nat> {
    let digits = after_plus(s);
    match digits_value(digits, radix) {
        Some(v) => if digits.len() > 0 && v <= max {
            Some(v)
        } else {
            None
        },
        None => None,
    }
}

/// A signed 64-bit decimal number with an optional sign.
pub open spec fn signed(s: Seq<char>) -> Option<int> {
    let negative = s.len() > 1 && s[0] == '-';
    let digits = if negative {
        s.skip(1)
    } else {
        after_plus(s)
    };
    match digits_value(digits, 10) {
        Some(v) => if digits.len() == 0 {
            None
        } else if negative && v <= 0x8000_0000_0000_0000 {
            Some(-(v as int))
        } else if !negative && v <= 0x7FFF_FFFF_FFFF_FFFF {
            Some(v as int)
        } else {
            None
        },
        None => None,
    }
}

/// Reads digits up to a bound.
fn read_digits(s: &[char], radix: u32, max: u64) -> (r: Option<u64>)
    requires
        2 <= radix <= 16,
    ensures
        r is Some <==> (digits_value(s@, radix as nat) matches Some(v) && v <= max),
        r matches Some(v) ==> digits_value(s@, radix as nat) == Some(v as nat),
{
    let mut acc: u64 = 0;
    for i in 0..s.len()
        invariant
            2 <= radix <= 16,
            digits_value(s@.take(i as int), radix as nat) == Some(acc as nat),
            acc <= max,
    {
        proof {
            assert(s@.take(i + 1).drop_last() =~= s@.take(i as int));
            assert(s@.take(i + 1).last() == s@[i as int]);
            lemma_digits_prefix(s@, i + 1, radix as nat);
        }
        match digit_of(s[i], radix) {
            None => {
                return None;
            },
            Some(d) => {
                assert(acc * radix <= u64::MAX * 16) by (nonlinear_arith)
                    requires
                        acc <= u64::MAX,
                        radix <= 16,
                ;
                let next: u128 = acc as u128 * radix as u128 + d as u128;
                assert(next == acc as nat * radix as nat + d as nat);
                if next > max as u128 {
                    return None;
                }
                acc = next as u64;
            },
        }
    }
    assert(s@.take(s@.len() as int) =~= s@);
    Some(acc)
}

/// Reads an unsigned number up to `max` in the given radix.
pub fn parse_unsigned(s: &[char], radix: u32, max: u64) -> (r: Option<u64>)
    requires
        2 <= radix <= 16,
    ensures
        r is Some <==> unsigned(s@, radix as nat, max as nat) is Some,
        r matches Some(v) ==> unsigned(s@, radix as nat, max as nat) == Some(v as nat) && v <= max,
{
    let n: usize = s.len();
    if n == 0 {
        return None;
    }
    if n > 1 && s[0] == '+' {
        let rest = slice_subrange(s, 1, n);
        assert(rest@ =~= s@.skip(1));
        read_digits(rest, radix, max)
    } else {
        read_digits(s, radix, max)
    }
}

/// Reads an unsigned 64-bit decimal number.
pub fn parse_u64(s: &str) -> (r: Option<u64>)
    ensures
        r is Some <==> unsigned(s@, 10, u64::MAX as nat) is Some,
        r matches Some(v) ==> unsigned(s@, 10, u64::MAX as nat) == Some(v as nat),
{
    let v = chars_of(s);
    parse_unsigned(v.as_slice(), 10, u64::MAX)
}

/// Reads a signed 64-bit decimal number.
pub fn parse_i64(s: &[char]) -> (r: Option<i64>)
    ensures
        r is Some <==> signed(s@) is Some,
        r matches Some(v) ==> signed(s@) == Some(v as int),
{
    let n: usize = s.len();
    if n == 0 {
        return None;
    }
    if n > 1 && s[0] == '-' {
        let rest = slice_subrange(s, 1, n);
        assert(rest@ =~= s@.skip(1));
        match read_digits(rest, 10, 0x8000_0000_0000_0000) {
            Some(v) => {
                if v == 0x8000_0000_0000_0000 {
                    Some(i64::MIN)
                } else {
                    Some(-(v as i64))
                }
            },
            None => None,
        }
    } else if n > 1 && s[0] == '+' {
        let rest = slice_subrange(s, 1, n);
        assert(rest@ =~= s@.skip(1));
        match read_digits(rest, 10, 0x7FFF_FFFF_FFFF_FFFF) {
            Some(v) => Some(v as i64),
            None => None,
        }
    } else {
        match read_digits(s, 10, 0x7FFF_FFFF_FFFF_FFFF) {
            Some(v) => Some(v as i64),
            None => None,
        }
    }
}

// ── Formatting ──────────────────────────────────────────────────────────────

/// The lower-case digit of a value below sixteen.
pub open spec fn digit_char(d: nat) -> char {
    if d < 10 {
        (d + '0' as u32) as char
    } else {
        (d - 10 + 'a' as u32) as char
    }
}

/// Writes one lower-case digit.
pub fn digit_to_char(d: u8) -> (r: char)
    requires
        d < 16,
    ensures
        r == digit_char(d as nat),
{
    if d < 10 {
        (48 + d) as char
    } else {
        (87 + d) as char
    }
}

/// A number written in the given radix, without leading zeros.
pub open spec fn in_radix(n: nat, radix: nat) -> Seq<char>
    decreases n,
{
    if radix < 2 || n < radix {
        seq![digit_char(n)]
    } else {
        proof {
            assert(n / radix < n) by (nonlinear_arith)
                requires
                    n >= radix,
                    radix >= 2,
            ;
        }
        in_radix(n / radix, radix).push(digit_char(n % radix))
    }
}

/// A number written in decimal.
pub open spec fn decimal(n: nat) -> Seq<char> {
    in_radix(n, 10)
}

/// `s` with zeros before it up to a width.
pub open spec fn zero_padded(s: Seq<char>, width: nat) -> Seq<char>
    decreases width - s.len(),
{
    if s.len() >= width {
        s
    } else {
        zero_padded(seq!['0'] + s, width)
    }
}

/// The digits of `n` in the given radix.
fn digits_in(n: u64, radix: u64) -> (r: Vec<char>)
    requires
        2 <= radix <= 16,
    ensures
        r@ == in_radix(n as nat, radix as nat),
    decreases n,
{
    if n < radix {
        let mut out: Vec<char> = Vec::new();
        out.push(digit_to_char(n as u8));
        assert(out@ =~= seq![digit_char(n as nat)]);
        out
    } else {
        assert(n / radix < n) by (nonlinear_arith)
            requires
                n >= radix,
                radix >= 2,
        ;
        assert(n % radix < radix) by (nonlinear_arith)
            requires
                radix >= 2,
        ;
        let mut out = digits_in(n / radix, radix);
        out.push(digit_to_char((n % radix) as u8));
        out
    }
}

/// Puts zeros before `v` up to a width.
fn pad_zeros(v: Vec<char>, width: usize) -> (r: Vec<char>)
    ensures
        r@ == zero_padded(v@, width as nat),
{
    let ghost start = v@;
    let mut out = v;
    while out.len() < width
        invariant
            zero_padded(out@, width as nat) == zero_padded(start, width as nat),
        decreases width - out@.len(),
    {
        let ghost before = out@;
        out.insert(0, '0');
        assert(out@ =~= seq!['0'] + before);
    }
    out
}

/// Writes a number in decimal.
pub fn to_decimal(n: u64) -> (r: String)
    ensures
        r@ == decimal(n as nat),
{
    let v = digits_in(n, 10);
    string_of(v.as_slice())
}

/// A signed number written in decimal.
pub open spec fn signed_decimal(n: int) -> Seq<char> {
    if n < 0 {
        "-"@ + decimal((-n) as nat)
    } else {
        decimal(n as nat)
    }
}

/// Writes a signed number in decimal.
pub fn to_signed_decimal(n: i64) -> (r: String)
    ensures
        r@ == signed_decimal(n as int),
{
    if n < 0 {
        let size: u64 = (-(n + 1)) as u64 + 1;
        let digits = to_decimal(size);
        cat("-", digits.as_str())
    } else {
        to_decimal(n as u64)
    }
}

/// Writes a number in decimal with at least `width` digits.
pub fn to_decimal_padded(n: u64, width: usize) -> (r: String)
    ensures
        r@ == zero_padded(decimal(n as nat), width as nat),
{
    let v = pad_zeros(digits_in(n, 10), width);
    string_of(v.as_slice())
}

/// Writes a number in lower-case hexadecimal with at least `width` digits.
pub fn to_hex_padded(n: u64, width: usize) -> (r: String)
    ensures
        r@ == zero_padded(in_radix(n as nat, 16), width as nat),
{
    let v = pad_zeros(digits_in(n, 16), width);
    string_of(v.as_slice())
}

/// The lower-case form of an ASCII letter; other characters stay.
pub open spec fn ascii_lower(c: char) -> char {
    if 'A' <= c && c <= 'Z' {
        (c as u32 - 'A' as u32 + 'a' as u32) as char
    } else {
        c
    }
}

/// Lower-cases one ASCII letter.
pub fn lower(c: char) -> (r: char)
    ensures
        r == ascii_lower(c),
{
    let n: u32 = c as u32;
    if 65 <= n && n <= 90 {
        ((n as u8) + 32) as char
    } else {
        c
    }
}

/// Writing and reading a number again gives it back.
pub proof fn lemma_decimal_value(n: nat)
    ensures
        digits_value(decimal(n), 10) == Some(n),
        decimal(n).len() > 0,
        '0' <= decimal(n)[0] && decimal(n)[0] <= '9',
    decreases n,
{
    if n < 10 {
        assert(decimal(n).drop_last() =~= Seq::<char>::empty());
        assert(decimal(n).last() == digit_char(n));
        assert(digits_value(Seq::<char>::empty(), 10) == Some(0nat));
    } else {
        lemma_decimal_value(n / 10);
        let front = decimal(n / 10);
        assert(decimal(n).drop_last() =~= front);
        assert(decimal(n).last() == digit_char(n % 10));
        assert(digit_value(digit_char(n % 10), 10) == Some(n % 10));
        assert(decimal(n)[0] == front[0]);
    }
}

/// A written number reads back.
pub proof fn law_signed_reads_back(n: i64)
    ensures
        signed(signed_decimal(n as int)) == Some(n as int),
{
    reveal_strlit("-");
    let size: nat = if n < 0 {
        (-n) as nat
    } else {
        n as nat
    };
    lemma_decimal_value(size);
    let s = signed_decimal(n as int);
    if n < 0 {
        assert(s.skip(1) =~= decimal(size));
    } else {
        assert(after_plus(s) == s);
    }
}

/// Different numbers are written differently.
pub proof fn lemma_decimal_injective(a: nat, b: nat)
    ensures
        decimal(a) == decimal(b) ==> a == b,
{
    lemma_decimal_value(a);
    lemma_decimal_value(b);
}

/// A number is written with decimal digits.
pub proof fn lemma_decimal_digits(n: nat)
    ensures
        forall|i: int| 0 <= i < decimal(n).len() ==> '0' <= #[trigger] decimal(n)[i] && decimal(n)[i]
            <= '9',
    decreases n,
{
    if n >= 10 {
        lemma_decimal_digits(n / 10);
        assert(decimal(n).drop_last() =~= decimal(n / 10));
        assert forall|i: int| 0 <= i < decimal(n).len() implies '0' <= #[trigger] decimal(n)[i]
            && decimal(n)[i] <= '9' by {
            if i < decimal(n).len() - 1 {
                assert(decimal(n)[i] == decimal(n / 10)[i]);
            }
        }
    }
}

/// What digits are worth, in decimal and in hexadecimal.
pub proof fn law_digits(c: char)
    ensures
        '0' <= c && c <= '9' ==> digit_value(c, 10) == Some((c as int - 48) as nat)
            && digit_value(c, 16) == Some((c as int - 48) as nat),
        'a' <= c && c <= 'f' ==> digit_value(c, 16) == Some((c as int - 87) as nat),
        'A' <= c && c <= 'F' ==> digit_value(c, 16) == Some((c as int - 55) as nat),
        digit_value(c, 10) is Some ==> '0' <= c && c <= '9',
        digit_value(c, 16) is Some ==> ('0' <= c && c <= '9') || ('a' <= c && c <= 'f') || ('A' <= c
            && c <= 'F'),
{
}

/// A number that is written in decimal is read as that number if it is no larger
/// than is asked for, with or without a plus sign before it. A text that is
/// empty, or holds something else than digits, is no number.
pub proof fn law_decimal_numbers_are_read(n: nat, max: nat, s: Seq<char>, i: int)
    ensures
        n <= max ==> unsigned(decimal(n), 10, max) == Some(n),
        n <= max ==> unsigned(seq!['+'] + decimal(n), 10, max) == Some(n),
        n > max ==> unsigned(decimal(n), 10, max) is None,
        s.len() == 0 ==> unsigned(s, 10, max) is None,
        0 <= i < s.len() && !('0' <= s[i] && s[i] <= '9') && (i > 0 || s[i] != '+' || s.len() == 1)
            ==> unsigned(s, 10, max) is None,
{
    lemma_decimal_value(n);
    let d = decimal(n);
    let plus = seq!['+'] + d;
    assert(plus.skip(1) =~= d);
    if 0 <= i < s.len() && !('0' <= s[i] && s[i] <= '9') && (i > 0 || s[i] != '+' || s.len() == 1) {
        let digits = after_plus(s);
        let k = if digits.len() == s.len() {
            i
        } else {
            i - 1
        };
        assert(digits[k] == s[i]);
        lemma_digits_prefix(digits, k + 1, 10);
        let head = digits.take(k + 1);
        assert(head.last() == digits[k]);
        assert(digits_value(head, 10) is None);
    }
}

/// Numbers are written without a leading zero, from the highest digit to the
/// lowest, with lower-case letters for the digits above nine.
pub proof fn law_how_numbers_are_written(n: nat)
    ensures
        n < 10 ==> decimal(n) == seq![(48 + n) as char],
        n >= 10 ==> decimal(n) == decimal(n / 10).push((48 + n % 10) as char),
        n < 10 ==> in_radix(n, 16) == seq![(48 + n) as char],
        10 <= n < 16 ==> in_radix(n, 16) == seq![(87 + n) as char],
        n >= 16 ==> in_radix(n, 16) == in_radix(n / 16, 16) + in_radix(n % 16, 16),
{
    if n >= 16 {
        assert(in_radix(n % 16, 16) == seq![digit_char(n % 16)]);
        assert(in_radix(n / 16, 16) + in_radix(n % 16, 16) =~= in_radix(n, 16));
    }
}

/// Padding puts zeros before a text, as many as it is short of the width.
pub proof fn law_padding(s: Seq<char>, width: nat)
    ensures
        s.len() >= width ==> zero_padded(s, width) == s,
        s.len() < width ==> zero_padded(s, width) == Seq::new(
            (width - s.len()) as nat,
            |i: int| '0',
        ) + s,
    decreases width - s.len(),
{
    if s.len() < width {
        let t = seq!['0'] + s;
        law_padding(t, width);
        assert(zero_padded(t, width) =~= Seq::new((width - s.len()) as nat, |i: int| '0') + s);
    }
}

/// A signed number is written as its size, after a minus sign if it is below
/// zero. What is outside of 64 bits, and a sign alone, is not read.
pub proof fn law_signed_numbers(n: int)
    ensures
        n < 0 ==> signed_decimal(n) == seq!['-'] + decimal((-n) as nat),
        n >= 0 ==> signed_decimal(n) == decimal(n as nat),
        signed(signed_decimal(n)) is Some <==> -0x8000_0000_0000_0000 <= n
            <= 0x7FFF_FFFF_FFFF_FFFF,
        signed(seq!['-']) is None,
        signed(Seq::empty()) is None,
{
    reveal_strlit("-");
    assert("-"@ =~= seq!['-']);
    let size: nat = if n < 0 {
        (-n) as nat
    } else {
        n as nat
    };
    lemma_decimal_value(size);
    let s = signed_decimal(n);
    if n < 0 {
        assert(s.skip(1) =~= decimal(size));
    }
    let dash = seq!['-'];
    assert(digit_value(dash.last(), 10) is None);
    assert(digits_value(dash, 10) is None);
}

/// Capital letters of ASCII become small ones; other characters stay.
pub proof fn law_lower_case(c: char)
    ensures
        'A' <= c && c <= 'Z' ==> ascii_lower(c) as int == c as int + 32,
        !('A' <= c && c <= 'Z') ==> ascii_lower(c) == c,
{
}

} // verus!
