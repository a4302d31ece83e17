//! Decimal and hexadecimal rendering and parsing of integers, modelled on
//! `Display` for integers and on `FromStr` for `u8`, `u16`, `u64` and `i32`.
use vstd::prelude::*;

verus! {

/// The ASCII digit for `d < 10`.
pub open spec fn digit_char(d: nat) -> char {
    ((48 + d) as u8) as char
}

/// Decimal rendering of a natural number, without leading zeros.
pub open spec fn dec(n: nat) -> Seq<char>
    decreases n,
{
    if n < 10 {
        seq![digit_char(n)]
    } else {
        dec(n / 10).push(digit_char(n % 10))
    }
}

/// Decimal rendering of an integer, with a leading `-` when negative.
pub open spec fn int_dec(i: int) -> Seq<char> {
    if i < 0 {
        seq!['-'] + dec((-i) as nat)
    } else {
        dec(i as nat)
    }
}

/// Appends the decimal rendering of `n`.
pub fn push_dec(v: &mut Vec<char>, n: u64)
    ensures
        final(v)@ == old(v)@ + dec(n as nat),
    decreases n,
{
    if n < 10 {
        v.push(((48 + n) as u8) as char);
        assert(old(v)@.push(digit_char(n as nat)) =~= old(v)@ + dec(n as nat));
    } else {
        push_dec(v, n / 10);
        v.push(((48 + n % 10) as u8) as char);
        assert(old(v)@ + dec((n / 10) as nat) + seq![digit_char((n % 10) as nat)]
            =~= old(v)@ + dec(n as nat));
    }
}

/// Appends the decimal rendering of `i`.
pub fn push_i32_dec(v: &mut Vec<char>, i: i32)
    ensures
        final(v)@ == old(v)@ + int_dec(i as int),
{
    if i < 0 {
        v.push('-');
        let mag: u64 = (0i64 - i as i64) as u64;
        push_dec(v, mag);
        assert(old(v)@.push('-') + dec(mag as nat) =~= old(v)@ + int_dec(i as int));
    } else {
        push_dec(v, i as u64);
    }
}

/// The lower-case hexadecimal digit for `d < 16`.
pub open spec fn hex_digit_char(d: nat) -> char {
    if d < 10 {
        digit_char(d)
    } else {
        ((87 + d) as u8) as char
    }
}

/// Two lower-case hexadecimal digits for each byte (`{:02x}` per byte).
pub open spec fn hex_lower(b: Seq<u8>) -> Seq<char>
    decreases b.len(),
{
    if b.len() == 0 {
        seq![]
    } else {
        hex_lower(b.drop_last()) + seq![
            hex_digit_char((b.last() / 16) as nat),
            hex_digit_char((b.last() % 16) as nat),
        ]
    }
}

fn hex_char(d: u8) -> (c: char)
    requires
        d < 16,
    ensures
        c == hex_digit_char(d as nat),
{
    if d < 10 {
        (48 + d) as char
    } else {
        (87 + d) as char
    }
}

/// Appends two lower-case hexadecimal digits per byte of `b`.
pub fn push_hex_lower(v: &mut Vec<char>, b: &[u8])
    ensures
        final(v)@ == old(v)@ + hex_lower(b@),
{
    let mut i: usize = 0;
    while i < b.len()
        invariant
            i <= b@.len(),
            v@ == old(v)@ + hex_lower(b@.take(i as int)),
        decreases b@.len() - i,
    {
        let x = b[i];
        v.push(hex_char(x / 16));
        v.push(hex_char(x % 16));
        assert(b@.take(i + 1).drop_last() =~= b@.take(i as int));
        assert(v@ =~= old(v)@ + hex_lower(b@.take(i + 1)));
        i += 1;
    }
    assert(b@.take(b@.len() as int) =~= b@);
}

/// Lower-case hexadecimal rendering of a natural number, without leading
/// zeros (what `{:x}` gives).
pub open spec fn hex(n: nat) -> Seq<char>
    decreases n,
{
    if n < 16 {
        seq![hex_digit_char(n)]
    } else {
        hex(n / 16).push(hex_digit_char(n % 16))
    }
}

/// Appends the lower-case hexadecimal rendering of `n`, without leading zeros.
pub fn push_hex(v: &mut Vec<char>, n: u64)
    ensures
        final(v)@ == old(v)@ + hex(n as nat),
    decreases n,
{
    if n < 16 {
        v.push(hex_char(n as u8));
        assert(old(v)@.push(hex_digit_char(n as nat)) =~= old(v)@ + hex(n as nat));
    } else {
        push_hex(v, n / 16);
        v.push(hex_char((n % 16) as u8));
        assert(old(v)@ + hex((n / 16) as nat) + seq![hex_digit_char((n % 16) as nat)]
            =~= old(v)@ + hex(n as nat));
    }
}

/// An ASCII decimal digit.
pub open spec fn is_digit(c: char) -> bool {
    '0' <= c <= '9'
}

pub open spec fn digit_val(c: char) -> nat {
    ((c as u32) - 48) as nat
}

pub open spec fn all_digits(s: Seq<char>) -> bool {
    forall|i: int| 0 <= i < s.len() ==> is_digit(#[trigger] s[i])
}

/// The value of a string of decimal digits.
pub open spec fn digits_value(s: Seq<char>) -> nat
    decreases s.len(),
{
    if s.len() == 0 {
        0
    } else {
        digits_value(s.drop_last()) * 10 + digit_val(s.last())
    }
}

/// The integer that `FromStr` reads from `s`, before the range check of the
/// target type: an optional `+` (or `-` where `signed`), then at least one
/// ASCII digit and nothing else.
pub open spec fn parse_int(s: Seq<char>, signed: bool) -> Option<int> {
    if s.len() > 0 && (s[0] == '+' || (signed && s[0] == '-')) {
        let r = s.drop_first();
        if r.len() > 0 && all_digits(r) {
            if s[0] == '-' {
                Some(-(digits_value(r) as int))
            } else {
                Some(digits_value(r) as int)
            }
        } else {
            None
        }
    } else if s.len() > 0 && all_digits(s) {
        Some(digits_value(s) as int)
    } else {
        None
    }
}

/// `FromStr` for an unsigned type whose largest value is `max`.
pub open spec fn parse_unsigned(s: Seq<char>, max: nat) -> Option<nat> {
    match parse_int(s, false) {
        Some(v) => if v <= max {
            Some(v as nat)
        } else {
            None
        },
        None => None,
    }
}

/// `FromStr` for `i32`.
pub open spec fn parse_i32(s: Seq<char>) -> Option<i32> {
    match parse_int(s, true) {
        Some(v) => if i32::MIN <= v <= i32::MAX {
            Some(v as i32)
        } else {
            None
        },
        None => None,
    }
}

proof fn lemma_digits_prefix_le(s: Seq<char>, i: int)
    requires
        0 <= i <= s.len(),
    ensures
        digits_value(s.take(i)) <= digits_value(s),
    decreases s.len(),
{
    if i < s.len() {
        assert(s.take(i) =~= s.drop_last().take(i));
        lemma_digits_prefix_le(s.drop_last(), i);
    } else {
        assert(s.take(i) =~= s);
    }
}

/// Reads the digits `s[start..]` as a number no larger than `limit`;
/// `None` when a character is not a digit, the digits are empty, or the
/// value exceeds `limit`.
fn digits_upto(s: &[char], start: usize, limit: u64) -> (r: Option<u64>)
    requires
        start <= s@.len(),
    ensures
        ({
            let t = s@.skip(start as int);
            match r {
                Some(v) => t.len() > 0 && all_digits(t) && v == digits_value(t) && v <= limit,
                None => !(t.len() > 0 && all_digits(t) && digits_value(t) <= limit),
            }
        }),
{
    let ghost t = s@.skip(start as int);
    let n = s.len();
    if start == n {
        return None;
    }
    let mut acc: u64 = 0;
    let mut i = start;
    while i < n
        invariant
            start <= i <= n == s@.len(),
            t == s@.skip(start as int),
            acc <= limit,
            all_digits(t.take(i - start)),
            acc == digits_value(t.take(i - start)),
        decreases n - i,
    {
        let c = s[i];
        if !('0' <= c && c <= '9') {
            assert(t[i - start] == c);
            return None;
        }
        let d = (c as u32 - 48) as u64;
        assert(t.take(i + 1 - start).drop_last() =~= t.take(i - start));
        assert(t.take(i + 1 - start).last() == c);
        if d > limit || acc > (limit - d) / 10 {
            proof {
                let a: int = acc as int;
                let di: int = d as int;
                let l: int = limit as int;
                assert(a * 10 + di > l) by (nonlinear_arith)
                    requires
                        0 <= di,
                        0 <= a,
                        di > l || a > (l - di) / 10,
                ;
                if all_digits(t) {
                    lemma_digits_prefix_le(t, i + 1 - start);
                }
            }
            return None;
        }
        proof {
            let a: int = acc as int;
            let di: int = d as int;
            let l: int = limit as int;
            assert(a * 10 + di <= l) by (nonlinear_arith)
                requires
                    0 <= di <= l,
                    0 <= a <= (l - di) / 10,
            ;
        }
        acc = acc * 10 + d;
        i += 1;
    }
    assert(t.take(n - start) =~= t);
    Some(acc)
}

/// `FromStr` for an unsigned integer type whose largest value is `max`.
pub fn parse_unsigned_exec(s: &[char], max: u64) -> (r: Option<u64>)
    ensures
        r matches Some(v) ==> parse_unsigned(s@, max as nat) == Some(v as nat),
        r is None ==> parse_unsigned(s@, max as nat) is None,
{
    if s.len() > 0 && s[0] == '+' {
        assert(s@.drop_first() =~= s@.skip(1));
        digits_upto(s, 1, max)
    } else {
        assert(s@.skip(0) =~= s@);
        digits_upto(s, 0, max)
    }
}

/// `FromStr` for `i32`.
pub fn parse_i32_exec(s: &[char]) -> (r: Option<i32>)
    ensures
        r == parse_i32(s@),
{
    if s.len() > 0 && (s[0] == '+' || s[0] == '-') {
        assert(s@.drop_first() =~= s@.skip(1));
        let neg = s[0] == '-';
        let limit: u64 = if neg { 2147483648 } else { 2147483647 };
        match digits_upto(s, 1, limit) {
            Some(v) => {
                if neg {
                    Some((0i64 - v as i64) as i32)
                } else {
                    Some(v as i32)
                }
            },
            None => None,
        }
    } else {
        assert(s@.skip(0) =~= s@);
        match digits_upto(s, 0, 2147483647) {
            Some(v) => Some(v as i32),
            None => None,
        }
    }
}

proof fn lemma_digit_char(d: nat)
    requires
        d < 10,
    ensures
        is_digit(digit_char(d)),
        digit_val(digit_char(d)) == d,
{
    assert((48 + d) as u8 == 48 + d);
    assert(digit_char(d) as u32 == 48 + d);
}

/// A number's decimal text is a non-empty run of digits whose value is the number.
pub proof fn lemma_dec_digits(n: nat)
    ensures
        dec(n).len() > 0,
        all_digits(dec(n)),
        digits_value(dec(n)) == n,
    decreases n,
{
    lemma_digit_char(n % 10);
    if n < 10 {
        assert(dec(n).drop_last() =~= Seq::<char>::empty());
        assert(digits_value(Seq::<char>::empty()) == 0);
    }
    if n >= 10 {
        lemma_dec_digits(n / 10);
        let d = dec(n);
        assert(d.drop_last() =~= dec(n / 10));
        assert(d.last() == digit_char(n % 10));
        assert(n == (n / 10) * 10 + n % 10);
        assert(digits_value(d) == digits_value(d.drop_last()) * 10 + digit_val(d.last()));
        assert forall|i: int| 0 <= i < d.len() implies is_digit(#[trigger] d[i]) by {
            if i < d.len() - 1 {
                assert(d[i] == dec(n / 10)[i]);
            }
        }
    }
}

/// Decimal rendering reads back: `FromStr` of a number's decimal text, for
/// a type whose range holds it, is the number.
pub proof fn lemma_parse_dec(n: nat, max: nat)
    requires
        n <= max,
    ensures
        parse_unsigned(dec(n), max) == Some(n),
{
    lemma_dec_digits(n);
    assert(is_digit(dec(n)[0]));
}

} // verus!
