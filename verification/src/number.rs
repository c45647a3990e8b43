//! Numbers in text: decimal in both directions, hexadecimal out.

use vstd::prelude::*;

verus! {

/// The decimal digit `d`.
pub open spec fn digit(d: nat) -> char
    recommends
        d < 10,
{
    (('0' as u32) + d) as char
}

/// `n` in decimal, without leading zeros.
pub open spec fn decimal(n: nat) -> Seq<char>
    decreases n,
{
    if n < 10 {
        seq![digit(n)]
    } else {
        decimal(n / 10).push(digit(n % 10))
    }
}

/// `c` is a decimal digit of ASCII.
pub open spec fn is_digit(c: char) -> bool {
    '0' <= c && c <= '9'
}

/// What the digit `c` counts.
pub open spec fn digit_value(c: char) -> nat {
    ((c as u32) - ('0' as u32)) as nat
}

/// All characters are decimal digits.
pub open spec fn all_digits(s: Seq<char>) -> bool {
    forall|i: int| 0 <= i < s.len() ==> is_digit(#[trigger] s[i])
}

/// The number that the digits of `s` write.
pub open spec fn value_of(s: Seq<char>) -> nat
    decreases s.len(),
{
    if s.len() == 0 {
        0
    } else {
        value_of(s.drop_last()) * 10 + digit_value(s.last())
    }
}

/// The number that `s` writes, where it is one and at most `max`: digits, one
/// at least, with a plus sign before them or not.
pub open spec fn parse_number(s: Seq<char>, max: nat) -> Option<nat> {
    let d = if s.len() > 0 && s[0] == '+' {
        s.drop_first()
    } else {
        s
    };
    if d.len() > 0 && all_digits(d) && value_of(d) <= max {
        Some(value_of(d))
    } else {
        None
    }
}

/// The digits written for a number read back as that number.
pub proof fn decimal_reads_back(n: nat)
    ensures
        all_digits(decimal(n)),
        value_of(decimal(n)) == n,
        decimal(n).len() > 0,
        decimal(n)[0] != '+',
        forall|max: nat| n <= max ==> #[trigger] parse_number(decimal(n), max) == Some(n),
    decreases n,
{
    if n < 10 {
        assert(decimal(n).drop_last() == Seq::<char>::empty());
        assert(value_of(Seq::<char>::empty()) == 0);
    } else {
        decimal_reads_back(n / 10);
        assert(decimal(n).drop_last() == decimal(n / 10));
        assert(is_digit(decimal(n).last()));
        assert forall|i: int| 0 <= i < decimal(n).len() implies is_digit(
            #[trigger] decimal(n)[i],
        ) by {
            if i < decimal(n).len() - 1 {
                assert(decimal(n)[i] == decimal(n / 10)[i]);
            }
        }
        assert(decimal(n)[0] == decimal(n / 10)[0]);
    }
}

/// Two numbers written alike are the same number.
pub proof fn decimal_injective(a: nat, b: nat)
    requires
        decimal(a) == decimal(b),
    ensures
        a == b,
{
    decimal_reads_back(a);
    decimal_reads_back(b);
}

proof fn lemma_value_grows(s: Seq<char>, i: int)
    requires
        0 <= i <= s.len(),
    ensures
        value_of(s.take(i)) <= value_of(s),
    decreases s.len() - i,
{
    if i < s.len() {
        assert(s.take(i + 1).drop_last() == s.take(i));
        lemma_value_grows(s, i + 1);
    } else {
        assert(s.take(i) == s);
    }
}

/// Reads a number of at most `max`.
pub fn read_number(cs: &[char], max: u64) -> (r: Option<u64>)
    ensures
        r is Some <==> parse_number(cs@, max as nat) is Some,
        r matches Some(n) ==> parse_number(cs@, max as nat) == Some(n as nat),
{
    let start: usize = if cs.len() > 0 && cs[0] == '+' {
        1
    } else {
        0
    };
    let ghost d = if cs@.len() > 0 && cs@[0] == '+' {
        cs@.drop_first()
    } else {
        cs@
    };
    assert(d == cs@.skip(start as int));
    if start == cs.len() {
        return None;
    }
    let mut acc: u64 = 0;
    let mut i: usize = start;
    assert(d.take(0) == Seq::<char>::empty());
    assert(value_of(d.take(0)) == 0);
    while i < cs.len()
        invariant
            start <= i <= cs.len(),
            d == cs@.skip(start as int),
            d.len() > 0,
            parse_number(cs@, max as nat) == (if all_digits(d) && value_of(d) <= max {
                Some(value_of(d))
            } else {
                None
            }),
            acc <= max,
            acc == value_of(d.take(i - start)),
            forall|k: int| 0 <= k < i - start ==> is_digit(#[trigger] d[k]),
        decreases cs.len() - i,
    {
        let c: char = cs[i];
        let ghost k = i - start;
        assert(d[k] == c);
        if c < '0' || c > '9' {
            assert(!is_digit(d[k]));
            return None;
        }
        let v: u64 = (c as u32 - '0' as u32) as u64;
        assert(d.take(k + 1).drop_last() == d.take(k));
        assert(d.take(k + 1).last() == c);
        assert(value_of(d.take(k + 1)) == value_of(d.take(k)) * 10 + digit_value(c));
        if acc > (max - v.min(max)) / 10 || v > max {
            proof {
                lemma_value_grows(d, k + 1);
            }
            return None;
        }
        acc = acc * 10 + v;
        i = i + 1;
    }
    assert(d.take(d.len() as int) == d);
    Some(acc)
}

/// Reads a `u32`.
pub fn read_u32(cs: &[char]) -> (r: Option<u32>)
    ensures
        r is Some <==> parse_number(cs@, u32::MAX as nat) is Some,
        r matches Some(n) ==> parse_number(cs@, u32::MAX as nat) == Some(n as nat),
{
    match read_number(cs, u32::MAX as u64) {
        Some(n) => Some(n as u32),
        None => None,
    }
}

/// Reads a `u16`.
pub fn read_u16(cs: &[char]) -> (r: Option<u16>)
    ensures
        r is Some <==> parse_number(cs@, u16::MAX as nat) is Some,
        r matches Some(n) ==> parse_number(cs@, u16::MAX as nat) == Some(n as nat),
{
    match read_number(cs, u16::MAX as u64) {
        Some(n) => Some(n as u16),
        None => None,
    }
}

/// Reads a `usize`.
pub fn read_usize(cs: &[char]) -> (r: Option<usize>)
    ensures
        r is Some <==> parse_number(cs@, usize::MAX as nat) is Some,
        r matches Some(n) ==> parse_number(cs@, usize::MAX as nat) == Some(n as nat),
{
    match read_number(cs, usize::MAX as u64) {
        Some(n) => Some(n as usize),
        None => None,
    }
}

/// Appends `n` in decimal.
pub fn push_decimal(s: &mut String, n: u64)
    ensures
        final(s)@ == old(s)@ + decimal(n as nat),
    decreases n,
{
    if n >= 10 {
        push_decimal(s, n / 10);
    }
    let d: u8 = (n % 10) as u8;
    s.push((48u8 + d) as char);
    assert(s@ == old(s)@ + decimal(n as nat));
}

/// `n` in decimal.
pub fn decimal_string(n: u64) -> (s: String)
    ensures
        s@ == decimal(n as nat),
{
    let mut s = String::new();
    push_decimal(&mut s, n);
    s
}

/// The hexadecimal digit `d`, in lower case.
pub open spec fn hex_digit(d: nat) -> char {
    if d < 10 {
        digit(d)
    } else {
        (('a' as u32) + (d - 10)) as char
    }
}

/// The last `k` hexadecimal digits of `n`.
pub open spec fn hex(n: nat, k: nat) -> Seq<char>
    decreases k,
{
    if k == 0 {
        Seq::empty()
    } else {
        hex(n / 16, (k - 1) as nat).push(hex_digit(n % 16))
    }
}

/// Appends the last `k` hexadecimal digits of `n`.
pub fn push_hex(s: &mut String, n: u64, k: u32)
    ensures
        final(s)@ == old(s)@ + hex(n as nat, k as nat),
    decreases k,
{
    if k > 0 {
        push_hex(s, n / 16, k - 1);
        let d: u8 = (n % 16) as u8;
        if d < 10 {
            s.push((48u8 + d) as char);
        } else {
            s.push((97u8 + (d - 10)) as char);
        }
    }
    assert(s@ == old(s)@ + hex(n as nat, k as nat));
}

/// The last `k` decimal digits of `n`.
pub open spec fn padded(n: nat, k: nat) -> Seq<char>
    decreases k,
{
    if k == 0 {
        Seq::empty()
    } else {
        padded(n / 10, (k - 1) as nat).push(digit(n % 10))
    }
}

/// The numbers below this have `k` decimal digits or fewer.
pub open spec fn limit(k: nat) -> nat
    decreases k,
{
    if k == 0 {
        1
    } else {
        10 * limit((k - 1) as nat)
    }
}

/// Appends the last `k` decimal digits of `n`.
pub fn push_padded(s: &mut String, n: u64, k: u32)
    ensures
        final(s)@ == old(s)@ + padded(n as nat, k as nat),
    decreases k,
{
    if k > 0 {
        push_padded(s, n / 10, k - 1);
        let d: u8 = (n % 10) as u8;
        s.push((48u8 + d) as char);
    }
    assert(s@ == old(s)@ + padded(n as nat, k as nat));
}

/// As many digits as were asked for, and nothing else.
pub proof fn lemma_padded(n: nat, k: nat)
    ensures
        padded(n, k).len() == k,
        all_digits(padded(n, k)),
    decreases k,
{
    if k > 0 {
        lemma_padded(n / 10, (k - 1) as nat);
    }
}

/// A number that has as many digits as asked for is not padded.
pub proof fn lemma_padded_is_decimal(n: nat, k: nat)
    requires
        k > 0,
        n < limit(k),
        k > 1 ==> n >= limit((k - 1) as nat),
    ensures
        padded(n, k) == decimal(n),
    decreases k,
{
    if k > 1 {
        assert(n >= 10) by {
            lemma_limit_positive((k - 2) as nat);
        }
        lemma_padded_is_decimal(n / 10, (k - 1) as nat);
    } else {
        assert(limit(0) == 1);
        assert(padded(n / 10, 0) == Seq::<char>::empty());
        assert(padded(n, 1) == decimal(n));
    }
}

proof fn lemma_limit_positive(k: nat)
    ensures
        limit(k) > 0,
    decreases k,
{
    if k > 0 {
        lemma_limit_positive((k - 1) as nat);
    }
}

/// Where two numbers of the same width first differ, the smaller has the
/// smaller digit.
pub proof fn lemma_padded_differ(a: nat, b: nat, w: nat) -> (k: int)
    requires
        a < b < limit(w),
    ensures
        0 <= k < w,
        padded(a, w).take(k) == padded(b, w).take(k),
        padded(a, w)[k] < padded(b, w)[k],
    decreases w,
{
    if w == 0 {
        0
    } else {
        let x = padded(a / 10, (w - 1) as nat);
        let y = padded(b / 10, (w - 1) as nat);
        lemma_padded(a / 10, (w - 1) as nat);
        lemma_padded(b / 10, (w - 1) as nat);
        if a / 10 < b / 10 {
            let k = lemma_padded_differ(a / 10, b / 10, (w - 1) as nat);
            assert(padded(a, w).take(k) == x.take(k));
            assert(padded(b, w).take(k) == y.take(k));
            k
        } else {
            let k = w - 1;
            assert(padded(a, w).take(k) == x);
            assert(padded(b, w).take(k) == y);
            k
        }
    }
}

} // verus!
