//! Decimal integers as tmux writes them, read the way `str::parse` reads them.
use vstd::prelude::*;

verus! {

pub open spec fn is_digit(c: char) -> bool {
    '0' <= c && c <= '9'
}

pub open spec fn digit_value(c: char) -> nat {
    (c as int - '0' as int) as nat
}

pub open spec fn all_digits(s: Seq<char>) -> bool {
    forall|i: int| 0 <= i < s.len() ==> is_digit(#[trigger] s[i])
}

/// The number that the decimal digits `s` spell (most significant first).
pub open spec fn decimal_value(s: Seq<char>) -> nat
    decreases s.len(),
{
    if s.len() == 0 {
        0
    } else {
        decimal_value(s.drop_last()) * 10 + digit_value(s.last())
    }
}

/// The digits after an optional leading `+`.
pub open spec fn unsigned_digits(s: Seq<char>) -> Seq<char> {
    if s.len() > 0 && s[0] == '+' {
        s.drop_first()
    } else {
        s
    }
}

/// What `str::parse` gives for an unsigned integer type whose largest value is
/// `max`: an optional `+`, then one or more decimal digits, of value at most `max`.
pub open spec fn parse_unsigned_spec(s: Seq<char>, max: nat) -> Option<nat> {
    let d = unsigned_digits(s);
    if d.len() > 0 && all_digits(d) && decimal_value(d) <= max {
        Some(decimal_value(d))
    } else {
        None
    }
}

/// What `str::parse::<i32>` gives: an optional sign, then one or more decimal
/// digits, of a value that fits in an `i32`.
pub open spec fn parse_i32_spec(s: Seq<char>) -> Option<int> {
    if s.len() > 0 && s[0] == '-' {
        let d = s.drop_first();
        if d.len() > 0 && all_digits(d) && decimal_value(d) <= 0x8000_0000 {
            Some(-decimal_value(d))
        } else {
            None
        }
    } else {
        match parse_unsigned_spec(s, 0x7fff_ffff) {
            Some(v) => Some(v as int),
            None => None,
        }
    }
}

proof fn lemma_decimal_value_prefix(s: Seq<char>, k: int)
    requires
        0 <= k <= s.len(),
        all_digits(s),
    ensures
        decimal_value(s.take(k)) <= decimal_value(s),
    decreases s.len() - k,
{
    if k < s.len() {
        lemma_decimal_value_prefix(s, k + 1);
        assert(s.take(k + 1).drop_last() =~= s.take(k));
    } else {
        assert(s.take(k) =~= s);
    }
}

/// Reads the decimal digits `s` (after an optional `+`) as a number of at most
/// `max`.
pub fn parse_unsigned(s: &[char], max: u64) -> (r: Option<u64>)
    ensures
        match parse_unsigned_spec(s@, max as nat) {
            Some(v) => r == Some(v as u64),
            None => r is None,
        },
{
    let mut i: usize = 0;
    if s.len() > 0 && s[0] == '+' {
        i = 1;
    }
    let start = i;
    let ghost d = unsigned_digits(s@);
    assert(d =~= s@.skip(start as int));
    if i >= s.len() {
        return None;
    }
    let mut value: u128 = 0;
    while i < s.len()
        invariant
            start <= i <= s@.len(),
            d == unsigned_digits(s@),
            d == s@.skip(start as int),
            value == decimal_value(d.take(i - start)),
            value <= max,
            all_digits(d.take(i - start)),
        decreases s.len() - i,
    {
        let c = s[i];
        if !('0' <= c && c <= '9') {
            assert(d[i - start] == c);
            assert(!is_digit(d[i - start]));
            return None;
        }
        let digit = (c as u32 - '0' as u32) as u128;
        proof {
            assert(d.take(i - start + 1).drop_last() =~= d.take(i - start));
            assert(d.take(i - start + 1).last() == c);
        }
        value = value * 10 + digit;
        if value > max as u128 {
            proof {
                if all_digits(d) {
                    lemma_decimal_value_prefix(d, i - start + 1);
                }
            }
            return None;
        }
        assert(all_digits(d.take(i - start + 1)));
        i += 1;
    }
    assert(d.take(i - start) =~= d);
    Some(value as u64)
}

/// Reads a decimal `i32` with an optional sign.
pub fn parse_i32(s: &[char]) -> (r: Option<i32>)
    ensures
        match parse_i32_spec(s@) {
            Some(v) => r == Some(v as i32),
            None => r is None,
        },
{
    if s.len() > 0 && s[0] == '-' {
        let digits = crate::text::slice_chars(s, 1, s.len());
        assert(digits@ =~= s@.drop_first());
        if digits.len() > 0 && digits[0] == '+' {
            assert(!is_digit(digits@[0]));
            return None;
        }
        assert(unsigned_digits(digits@) =~= digits@);
        match parse_unsigned(digits.as_slice(), 0x8000_0000) {
            Some(v) => {
                let m = (0x8000_0000u64 - v) as i64;
                Some((m - 0x8000_0000i64) as i32)
            },
            None => None,
        }
    } else {
        match parse_unsigned(s, 0x7fff_ffff) {
            Some(v) => Some(v as i32),
            None => None,
        }
    }
}

/// The shortest decimal digits of `n`, as `n.to_string()` writes them.
pub open spec fn decimal_digits(n: nat) -> Seq<char>
    decreases n,
{
    if n < 10 {
        seq![digit_char(n)]
    } else {
        decimal_digits(n / 10).push(digit_char(n % 10))
    }
}

pub open spec fn digit_char(d: nat) -> char {
    (d + '0' as nat) as char
}

/// Writes `n` in decimal.
pub fn format_u32(n: u32) -> (r: Vec<char>)
    ensures
        r@ == decimal_digits(n as nat),
    decreases n,
{
    let d = char_of_digit((n % 10) as u8);
    if n < 10 {
        let mut v: Vec<char> = Vec::new();
        v.push(d);
        assert(v@ =~= seq![digit_char(n as nat)]);
        v
    } else {
        let mut v = format_u32(n / 10);
        v.push(d);
        v
    }
}

fn char_of_digit(d: u8) -> (c: char)
    requires
        d < 10,
    ensures
        c == digit_char(d as nat),
{
    (d + 48u8) as char
}

/// Reading back what `decimal_digits` writes gives the number again.
pub proof fn lemma_decimal_digits_round_trip(n: nat)
    ensures
        all_digits(decimal_digits(n)),
        decimal_digits(n).len() > 0,
        decimal_digits(n)[0] != '+',
        decimal_value(decimal_digits(n)) == n,
    decreases n,
{
    assert(digit_value(digit_char(n % 10)) == n % 10);
    assert(is_digit(digit_char(n % 10)));
    if n >= 10 {
        lemma_decimal_digits_round_trip(n / 10);
        let p = decimal_digits(n / 10);
        assert(decimal_digits(n).drop_last() =~= p);
        vstd::arithmetic::div_mod::lemma_fundamental_div_mod(n as int, 10);
        assert(decimal_digits(n)[0] == p[0]);
        let x = decimal_digits(n);
        assert(decimal_value(x) == decimal_value(x.drop_last()) * 10 + digit_value(x.last()));
        assert(x.last() == digit_char(n % 10));
        assert(decimal_value(x) == (n / 10) * 10 + n % 10);
    } else {
        assert(n % 10 == n);
        let x = decimal_digits(n);
        assert(x.drop_last() =~= seq![]);
        assert(decimal_value(x) == decimal_value(x.drop_last()) * 10 + digit_value(x.last()));
    }
}

/// The digits that `format_u32` writes read back, by `str::parse::<u32>`, as the
/// number written.
pub proof fn lemma_format_parse_u32(n: u32)
    ensures
        parse_unsigned_spec(decimal_digits(n as nat), u32::MAX as nat) == Some(n as nat),
{
    lemma_decimal_digits_round_trip(n as nat);
}

} // verus!

verus! {

/// `n` in decimal, as `n.to_string()` writes it.
pub fn u32_to_string(n: u32) -> (r: String)
    ensures
        r@ == decimal_digits(n as nat),
{
    let v = format_u32(n);
    crate::text::string_from_chars(v.as_slice())
}

} // verus!
