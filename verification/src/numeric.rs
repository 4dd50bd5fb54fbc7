//! Numbers written as text.

use crate::text::{skip, starts_with_char, to_chars};
use vstd::prelude::*;

verus! {

// ---------------------------------------------------------------------
// Model
// ---------------------------------------------------------------------

/// `c` is one of `0` to `9`.
pub open spec fn is_digit(c: char) -> bool {
    '0' <= c <= '9'
}

/// What the digit `c` counts.
pub open spec fn digit_value(c: char) -> nat {
    (c as int - '0' as int) as nat
}

/// The digit that counts `d`, in lower case where it is above nine.
pub open spec fn digit(d: nat) -> char {
    if d < 10 {
        ('0' as int + d) as char
    } else {
        ('a' as int + (d - 10)) as char
    }
}

/// `n` written in base `base`, without leading zeros.
pub open spec fn in_base(n: nat, base: nat) -> Seq<char>
    decreases n,
{
    if n < base || base < 2 {
        seq![digit(n)]
    } else {
        proof {
            assert(n / base < n) by (nonlinear_arith)
                requires
                    n >= base,
                    base >= 2,
            ;
        }
        in_base(n / base, base).push(digit(n % base))
    }
}

/// `n` in decimal.
pub open spec fn decimal(n: nat) -> Seq<char> {
    in_base(n, 10)
}

/// `n` in decimal, with a sign where it is negative.
pub open spec fn signed(n: int) -> Seq<char> {
    if n < 0 {
        seq!['-'] + decimal((-n) as nat)
    } else {
        decimal(n as nat)
    }
}

/// `s` with zeros before it, up to `width` characters.
pub open spec fn zero_padded(s: Seq<char>, width: nat) -> Seq<char> {
    if s.len() < width {
        Seq::new((width - s.len()) as nat, |i: int| '0') + s
    } else {
        s
    }
}

/// `n` in lower-case hexadecimal, at least `width` characters wide.
pub open spec fn hex(n: nat, width: nat) -> Seq<char> {
    zero_padded(in_base(n, 16), width)
}

/// What a run of decimal digits counts.
pub open spec fn value(s: Seq<char>) -> nat
    decreases s.len(),
{
    if s.len() == 0 {
        0
    } else {
        value(s.drop_last()) * 10 + digit_value(s.last())
    }
}

/// The digits of a number: what follows the plus sign that may begin it.
pub open spec fn unsigned_digits(s: Seq<char>) -> Seq<char> {
    if s.len() > 0 && s[0] == '+' {
        s.drop_first()
    } else {
        s
    }
}

/// The number that `s` writes: digits alone, after a plus sign at most, that
/// count no more than `max`.
pub open spec fn parse_unsigned(s: Seq<char>, max: nat) -> Option<nat> {
    let digits = unsigned_digits(s);
    if digits.len() > 0 && (forall|i: int| 0 <= i < digits.len() ==> is_digit(digits[i])) && value(
        digits,
    ) <= max {
        Some(value(digits))
    } else {
        None
    }
}

/// The number that `s` writes, with a minus sign where it is negative; none
/// below `min` and none above `max`.
pub open spec fn parse_integer(s: Seq<char>, min: int, max: int) -> Option<int> {
    if s.len() > 0 && s[0] == '-' {
        if s.len() > 1 && s[1] == '+' {
            None
        } else {
            match parse_unsigned(s.skip(1), (-min) as nat) {
                Some(n) => Some(-(n as int)),
                None => None,
            }
        }
    } else {
        match parse_unsigned(s, max as nat) {
            Some(n) => Some(n as int),
            None => None,
        }
    }
}

// ---------------------------------------------------------------------
// Facts about the model
// ---------------------------------------------------------------------

/// More digits never count less.
proof fn lemma_value_grows(s: Seq<char>, n: int)
    requires
        0 <= n <= s.len(),
    ensures
        value(s.take(n)) <= value(s),
    decreases s.len(),
{
    if n == s.len() {
        assert(s.take(n) =~= s);
    } else {
        lemma_value_grows(s.drop_last(), n);
        assert(s.drop_last().take(n) =~= s.take(n));
    }
}

/// A number in decimal consists of digits, the first of them no plus sign,
/// and they count that number.
pub proof fn lemma_decimal(n: nat)
    ensures
        decimal(n).len() > 0,
        forall|i: int| 0 <= i < decimal(n).len() ==> is_digit(#[trigger] decimal(n)[i]),
        value(decimal(n)) == n,
    decreases n,
{
    reveal_with_fuel(value, 2);
    if n < 10 {
        assert(decimal(n).drop_last() =~= Seq::empty());
    } else {
        lemma_decimal(n / 10);
        assert(decimal(n).drop_last() =~= decimal(n / 10));
    }
}

/// Reading a number gives back the number that was written.
pub proof fn law_decimal_round_trip(n: nat, max: nat)
    requires
        n <= max,
    ensures
        parse_unsigned(decimal(n), max) == Some(n),
{
    lemma_decimal(n);
    assert(is_digit(decimal(n)[0]));
}

/// Different numbers are written differently in decimal.
pub proof fn law_decimal_injective(m: nat, n: nat)
    requires
        decimal(m) == decimal(n),
    ensures
        m == n,
{
    lemma_decimal(m);
    lemma_decimal(n);
}

/// What a hexadecimal digit counts.
spec fn hex_digit_value(c: char) -> nat {
    if c <= '9' {
        (c as int - '0' as int) as nat
    } else {
        (c as int - 'a' as int + 10) as nat
    }
}

/// What a run of hexadecimal digits counts.
spec fn hex_value(s: Seq<char>) -> nat
    decreases s.len(),
{
    if s.len() == 0 {
        0
    } else {
        hex_value(s.drop_last()) * 16 + hex_digit_value(s.last())
    }
}

proof fn lemma_in_base_16(n: nat)
    ensures
        hex_value(in_base(n, 16)) == n,
        in_base(n, 16).len() > 0,
    decreases n,
{
    reveal_with_fuel(hex_value, 2);
    if n < 16 {
        assert(in_base(n, 16).drop_last() =~= Seq::empty());
    } else {
        lemma_in_base_16(n / 16);
        assert(in_base(n, 16).drop_last() =~= in_base(n / 16, 16));
    }
}

proof fn lemma_leading_zeros(s: Seq<char>, k: nat)
    ensures
        hex_value(Seq::new(k, |i: int| '0') + s) == hex_value(s),
    decreases s.len(), k,
{
    let zeros = Seq::new(k, |i: int| '0');
    let all = zeros + s;
    if s.len() > 0 {
        lemma_leading_zeros(s.drop_last(), k);
        assert(all.drop_last() =~= zeros + s.drop_last());
    } else if k > 0 {
        lemma_leading_zeros(s, (k - 1) as nat);
        assert(all.drop_last() =~= Seq::new((k - 1) as nat, |i: int| '0') + s);
    } else {
        assert(all =~= s);
    }
}

/// Different numbers are written differently in hexadecimal of one width.
pub proof fn law_hex_injective(m: nat, n: nat, width: nat)
    requires
        hex(m, width) == hex(n, width),
    ensures
        m == n,
{
    lemma_in_base_16(m);
    lemma_in_base_16(n);
    lemma_leading_zeros(in_base(m, 16), (width - in_base(m, 16).len()) as nat);
    lemma_leading_zeros(in_base(n, 16), (width - in_base(n, 16).len()) as nat);
}

proof fn lemma_in_base_16_len(n: nat, k: nat)
    requires
        n < vstd::arithmetic::power::pow(16, k),
        k > 0,
    ensures
        in_base(n, 16).len() <= k,
    decreases k,
{
    reveal(vstd::arithmetic::power::pow);
    if n >= 16 {
        if k == 1 {
            assert(vstd::arithmetic::power::pow(16, 0) == 1);
        } else {
            lemma_in_base_16_len(n / 16, (k - 1) as nat);
        }
    }
}

/// Thirty-two bits take eight hexadecimal digits.
pub proof fn lemma_hex_u32_len(n: u32)
    ensures
        hex(n as nat, 8).len() == 8,
{
    assert(vstd::arithmetic::power::pow(16, 8) == 0x1_0000_0000) by {
        reveal(vstd::arithmetic::power::pow);
        reveal_with_fuel(vstd::arithmetic::power::pow, 9);
    }
    lemma_in_base_16_len(n as nat, 8);
}

/// A number below thirty-two in hexadecimal.
pub proof fn lemma_hex_small(n: nat)
    requires
        n < 32,
    ensures
        hex(n, 4).len() == 4,
        forall|i: int| 0 <= i < 4 ==> #[trigger] hex(n, 4)[i] >= ' ',
{
    reveal_with_fuel(in_base, 3);
}

// ---------------------------------------------------------------------
// Operations
// ---------------------------------------------------------------------

/// The digit that counts `d`.
fn digit_char(d: u8) -> (r: char)
    requires
        d < 16,
    ensures
        r == digit(d as nat),
{
    if d < 10 {
        (0x30 + d) as char
    } else {
        (0x61 + (d - 10)) as char
    }
}

/// Appends `n`, written in base `base`, to `out`.
fn push_in_base(out: &mut String, n: u64, base: u64)
    requires
        2 <= base <= 16,
    ensures
        final(out)@ == old(out)@ + in_base(n as nat, base as nat),
    decreases n,
{
    if n >= base {
        proof {
            assert(n / base < n) by (nonlinear_arith)
                requires
                    n >= base,
                    base >= 2,
            ;
        }
        push_in_base(out, n / base, base);
    }
    let d: u64 = n % base;
    proof {
        assert(n % base < base && (n < base ==> n % base == n)) by (nonlinear_arith)
            requires
                base >= 2,
        ;
    }
    out.push(digit_char(d as u8));
    assert(out@ =~= old(out)@ + in_base(n as nat, base as nat));
}

/// `n` in decimal.
pub fn decimal_string(n: u64) -> (r: String)
    ensures
        r@ == decimal(n as nat),
{
    let mut out = String::new();
    push_in_base(&mut out, n, 10);
    assert(out@ =~= decimal(n as nat));
    out
}

/// `n` in decimal, with its sign.
pub fn signed_string(n: i64) -> (r: String)
    ensures
        r@ == signed(n as int),
{
    let mut out = String::new();
    if n < 0 {
        out.push('-');
        let m: u64 = if n == i64::MIN {
            0x8000_0000_0000_0000
        } else {
            (-n) as u64
        };
        push_in_base(&mut out, m, 10);
        assert(out@ =~= signed(n as int));
    } else {
        push_in_base(&mut out, n as u64, 10);
        assert(out@ =~= signed(n as int));
    }
    out
}

/// `n` in hexadecimal, at least `width` characters wide.
pub fn hex_string(n: u64, width: usize) -> (r: String)
    ensures
        r@ == hex(n as nat, width as nat),
{
    let mut digits = String::new();
    push_in_base(&mut digits, n, 16);
    assert(digits@ =~= in_base(n as nat, 16));
    let len: usize = digits.as_str().unicode_len();
    let mut out = String::new();
    let mut i: usize = len;
    while i < width
        invariant
            len <= i,
            out@.len() == i - len,
            i <= width || i == len,
            forall|j: int| 0 <= j < out@.len() ==> out@[j] == '0',
        decreases width - i,
    {
        out.push('0');
        i += 1;
    }
    out.append(digits.as_str());
    assert(out@ =~= hex(n as nat, width as nat));
    out
}

/// The number that `s` writes, where it is no more than `max`.
pub fn parse_decimal(s: &str, max: u64) -> (r: Option<u64>)
    ensures
        match r {
            Some(n) => parse_unsigned(s@, max as nat) == Some(n as nat),
            None => parse_unsigned(s@, max as nat) is None,
        },
{
    let text = if starts_with_char(s, '+') {
        skip(s, 1)
    } else {
        s
    };
    assert(text@ =~= unsigned_digits(s@));
    let digits = to_chars(text);
    if digits.len() == 0 {
        return None;
    }
    let mut n: u64 = 0;
    let mut i: usize = 0;
    while i < digits.len()
        invariant
            i <= digits@.len(),
            digits@ == unsigned_digits(s@),
            forall|j: int| 0 <= j < i ==> is_digit(digits@[j]),
            n == value(digits@.take(i as int)),
            n <= max,
        decreases digits@.len() - i,
    {
        let c: char = digits[i];
        if !('0' <= c && c <= '9') {
            assert(!is_digit(digits@[i as int]));
            return None;
        }
        let d: u64 = (c as u64) - ('0' as u64);
        proof {
            assert(digits@.take(i + 1).drop_last() =~= digits@.take(i as int));
            lemma_value_grows(digits@, i + 1);
        }
        if d > max || n > (max - d) / 10 {
            return None;
        }
        n = n * 10 + d;
        i += 1;
    }
    assert(digits@.take(i as int) =~= digits@);
    Some(n)
}


/// The number of thirty-two bits that `s` writes.
pub fn parse_i32(s: &str) -> (r: Option<i32>)
    ensures
        match r {
            Some(n) => parse_integer(s@, i32::MIN as int, i32::MAX as int) == Some(n as int),
            None => parse_integer(s@, i32::MIN as int, i32::MAX as int) is None,
        },
{
    if starts_with_char(s, '-') {
        let rest = skip(s, 1);
        if starts_with_char(rest, '+') {
            return None;
        }
        match parse_decimal(rest, 0x8000_0000) {
            Some(n) => Some((-(n as i64)) as i32),
            None => None,
        }
    } else {
        match parse_decimal(s, 0x7fff_ffff) {
            Some(n) => Some(n as i32),
            None => None,
        }
    }
}

} // verus!
