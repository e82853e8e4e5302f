//! Numbers as text: the digits of a number in a radix, and reading them back.

use vstd::prelude::*;
use crate::bytes::bytes_equal;

verus! {

/// The ASCII digit of a value below ten.
pub open spec fn digit(d: nat) -> u8 {
    (0x30 + d) as u8
}

/// The digits of `n` in `radix`, most significant first, without leading
/// zeros; zero is written as one digit.
pub open spec fn digits(n: nat, radix: nat) -> Seq<u8>
    decreases n,
    via digits_shrink
{
    if radix < 2 {
        Seq::empty()
    } else if n < radix {
        seq![digit(n)]
    } else {
        digits(n / radix, radix).push(digit(n % radix))
    }
}

#[via_fn]
proof fn digits_shrink(n: nat, radix: nat) {
    if 2 <= radix <= n {
        assert(n / radix < n) by (nonlinear_arith)
            requires
                2 <= radix <= n,
        ;
    }
}

/// The value of a digit: the decimal digits, then the letters in either case. Any
/// other byte is a digit of no radix.
pub open spec fn digit_of(b: u8) -> nat {
    if 0x30 <= b <= 0x39 {
        (b - 0x30) as nat
    } else if 0x61 <= b <= 0x7a {
        (b - 0x57) as nat
    } else if 0x41 <= b <= 0x5a {
        (b - 0x37) as nat
    } else {
        36
    }
}

/// `b` is a digit of `radix`.
pub open spec fn is_digit(b: u8, radix: nat) -> bool {
    digit_of(b) < radix
}

/// Every byte of `s` is a digit of `radix`.
pub open spec fn all_digits(s: Seq<u8>, radix: nat) -> bool {
    forall|i: int| 0 <= i < s.len() ==> is_digit(#[trigger] s[i], radix)
}

/// The number that the digits `s` denote in `radix`.
pub open spec fn digits_value(s: Seq<u8>, radix: nat) -> nat
    decreases s.len(),
{
    if s.len() == 0 {
        0
    } else {
        digits_value(s.drop_last(), radix) * radix + digit_of(s.last())
    }
}

/// The digits left of `s` after one leading plus sign.
pub open spec fn unsigned_digits(s: Seq<u8>) -> Seq<u8> {
    if s.len() > 0 && s[0] == 0x2b {
        s.skip(1)
    } else {
        s
    }
}

/// The 32-bit number that `s` denotes in `radix`: digits, with or without a
/// leading plus sign, whose value fits.
pub open spec fn number(s: Seq<u8>, radix: nat) -> Option<u32> {
    let d = unsigned_digits(s);
    if d.len() > 0 && all_digits(d, radix) && digits_value(d, radix) <= u32::MAX {
        Some(digits_value(d, radix) as u32)
    } else {
        None
    }
}

/// The digits of a number are digits, and their value is the number.
pub proof fn lemma_digits(n: nat, radix: nat)
    requires
        2 <= radix <= 10,
    ensures
        digits(n, radix).len() >= 1,
        all_digits(digits(n, radix), radix),
        digits_value(digits(n, radix), radix) == n,
        n > 0 ==> digits(n, radix)[0] != 0x30,
    decreases n,
{
    let s = digits(n, radix);
    if n < radix {
        assert(s.drop_last() =~= Seq::<u8>::empty());
        assert(digits_value(s.drop_last(), radix) == 0);
        assert(0 * radix == 0) by (nonlinear_arith);
    } else {
        assert(n / radix < n) by (nonlinear_arith)
            requires
                n >= radix,
                radix >= 2,
        ;
        assert(n / radix > 0) by (nonlinear_arith)
            requires
                n >= radix,
                radix >= 2,
        ;
        lemma_digits(n / radix, radix);
        let high = digits(n / radix, radix);
        assert(s.drop_last() =~= high);
        assert((n / radix) * radix + n % radix == n) by (nonlinear_arith)
            requires
                radix >= 2,
        ;
        assert(n % radix < radix) by (nonlinear_arith)
            requires
                radix >= 2,
        ;
        assert forall|i: int| 0 <= i < s.len() implies is_digit(#[trigger] s[i], radix) by {
            if i < high.len() {
                assert(s[i] == high[i]);
            }
        }
    }
}

/// Two numbers with the same digits are equal.
pub proof fn lemma_digits_injective(a: nat, b: nat, radix: nat)
    requires
        2 <= radix <= 10,
        digits(a, radix) == digits(b, radix),
    ensures
        a == b,
{
    lemma_digits(a, radix);
    lemma_digits(b, radix);
}

/// Digits hold no byte other than digits.
pub proof fn lemma_digits_exclude(n: nat, radix: nat, b: u8)
    requires
        2 <= radix <= 10,
        b < 0x30 || b > 0x39,
    ensures
        !digits(n, radix).contains(b),
{
    lemma_digits(n, radix);
}

/// The value of a prefix is no larger than the value of the whole.
proof fn lemma_value_prefix(s: Seq<u8>, k: int, radix: nat)
    requires
        radix >= 2,
        0 <= k <= s.len(),
        all_digits(s, radix),
    ensures
        digits_value(s.take(k), radix) <= digits_value(s, radix),
    decreases s.len(),
{
    if k == s.len() {
        assert(s.take(k) =~= s);
    } else {
        let init = s.drop_last();
        assert forall|i: int| 0 <= i < init.len() implies is_digit(#[trigger] init[i], radix) by {
            assert(init[i] == s[i]);
        }
        lemma_value_prefix(init, k, radix);
        assert(init.take(k) =~= s.take(k));
        let v = digits_value(init, radix);
        assert(v <= v * radix) by (nonlinear_arith)
            requires
                radix >= 2,
        ;
    }
}

/// Appends the digits of `n` to `out`.
pub fn push_digits(out: &mut Vec<u8>, n: u64, radix: u64)
    requires
        2 <= radix <= 10,
    ensures
        final(out)@ == old(out)@ + digits(n as nat, radix as nat),
    decreases n,
{
    if n < radix {
        let ghost start = out@;
        out.push(0x30 + n as u8);
        assert(out@ =~= start + digits(n as nat, radix as nat));
    } else {
        let ghost start = out@;
        assert(n / radix < n) by (nonlinear_arith)
            requires
                n >= radix,
                radix >= 2,
        ;
        push_digits(out, n / radix, radix);
        out.push(0x30 + (n % radix) as u8);
        assert(out@ =~= start + digits(n as nat, radix as nat));
    }
}

/// A signed number in decimal.
pub open spec fn signed_digits(n: int) -> Seq<u8> {
    if n < 0 {
        seq![0x2du8] + digits((-n) as nat, 10)
    } else {
        digits(n as nat, 10)
    }
}

/// Appends a signed number in decimal to `out`.
pub fn push_signed(out: &mut Vec<u8>, n: i32)
    ensures
        final(out)@ == old(out)@ + signed_digits(n as int),
{
    let ghost start = out@;
    if n < 0 {
        out.push(0x2d);
        push_digits(out, (-(n as i64)) as u64, 10);
    } else {
        push_digits(out, n as u64, 10);
    }
    assert(out@ =~= start + signed_digits(n as int));
}

/// The value of a digit; 36 for a byte that is none.
fn digit_value(b: u8) -> (r: u32)
    ensures
        r == digit_of(b),
{
    if 0x30 <= b && b <= 0x39 {
        (b - 0x30) as u32
    } else if 0x61 <= b && b <= 0x7a {
        (b - 0x57) as u32
    } else if 0x41 <= b && b <= 0x5a {
        (b - 0x37) as u32
    } else {
        36
    }
}

/// Reads a number as `number` says.
pub fn parse_number(s: &[u8], radix: u32) -> (r: Option<u32>)
    requires
        2 <= radix <= 36,
    ensures
        r == number(s@, radix as nat),
{
    let start: usize = if s.len() > 0 && s[0] == 0x2b {
        1
    } else {
        0
    };
    let ghost d = unsigned_digits(s@);
    assert(d =~= s@.skip(start as int));
    if start == s.len() {
        return None;
    }
    let mut value: u32 = 0;
    let mut i: usize = start;
    while i < s.len()
        invariant
            2 <= radix <= 36,
            start <= i <= s.len(),
            start <= 1,
            d == s@.skip(start as int),
            d == unsigned_digits(s@),
            d.len() == s.len() - start,
            all_digits(d.take(i - start), radix as nat),
            value == digits_value(d.take(i - start), radix as nat),
        decreases s.len() - i,
    {
        let b: u8 = s[i];
        let ghost k = i - start;
        assert(d[k] == b);
        let digit: u32 = digit_value(b);
        if digit >= radix {
            assert(!is_digit(d[k], radix as nat));
            return None;
        }
        assert(value as u64 * radix as u64 <= 0xffff_ffff * 36) by (nonlinear_arith)
            requires
                value <= 0xffff_ffff,
                radix <= 36,
        ;
        let next: u64 = value as u64 * radix as u64 + digit as u64;
        proof {
            let longer = d.take(k + 1);
            assert(longer.drop_last() =~= d.take(k));
            assert(longer.last() == b);
            assert(next == digits_value(longer, radix as nat));
            assert forall|j: int| 0 <= j < longer.len() implies is_digit(
                #[trigger] longer[j],
                radix as nat,
            ) by {
                if j < k {
                    assert(longer[j] == d.take(k)[j]);
                }
            }
        }
        if next > 0xffff_ffff {
            proof {
                if all_digits(d, radix as nat) {
                    lemma_value_prefix(d, k + 1, radix as nat);
                }
            }
            return None;
        }
        value = next as u32;
        i = i + 1;
    }
    assert(d.take(i - start) =~= d);
    Some(value)
}

/// Reads a number written exactly as its digits: no sign, no leading zeros.
pub fn parse_canonical(s: &[u8], radix: u32) -> (r: Option<u32>)
    requires
        2 <= radix <= 10,
    ensures
        match r {
            Some(n) => s@ == digits(n as nat, radix as nat),
            None => forall|n: u32| s@ != #[trigger] digits(n as nat, radix as nat),
        },
{
    match parse_number(s, radix) {
        None => {
            assert forall|n: u32| s@ != #[trigger] digits(n as nat, radix as nat) by {
                lemma_digits(n as nat, radix as nat);
                let t = digits(n as nat, radix as nat);
                assert(is_digit(t[0], radix as nat));
                assert(unsigned_digits(t) == t);
            }
            None
        },
        Some(n) => {
            let mut canonical: Vec<u8> = Vec::new();
            push_digits(&mut canonical, n as u64, radix as u64);
            assert(canonical@ =~= digits(n as nat, radix as nat));
            if bytes_equal(s, canonical.as_slice()) {
                Some(n)
            } else {
                assert forall|m: u32| s@ != #[trigger] digits(m as nat, radix as nat) by {
                    lemma_digits(m as nat, radix as nat);
                    let t = digits(m as nat, radix as nat);
                    assert(is_digit(t[0], radix as nat));
                    assert(unsigned_digits(t) == t);
                }
                None
            }
        },
    }
}

/// A number is written in the digits `0` to `9`, each worth the radix times the
/// one behind it, and is read in the same way.
pub proof fn digits_are_positional(n: nat, radix: nat, s: Seq<u8>, b: u8)
    requires
        2 <= radix <= 10,
    ensures
        n < radix ==> digits(n, radix) == seq![(48 + n) as u8],
        n >= radix ==> digits(n, radix) == digits(n / radix, radix).push((48 + n % radix) as u8),
        48 <= b <= 57 ==> digits_value(s.push(b), radix) == digits_value(s, radix) * radix + (b
            - 48),
        digits_value(Seq::empty(), radix) == 0,
        digits(n, 10).len() > 0,
{
    assert(s.push(b).drop_last() =~= s);
    lemma_digits(n, 10);
}

/// Every byte is one of the digits `0` on, below the radix.
pub open spec fn in_radix(d: Seq<u8>, radix: nat) -> bool {
    forall|i: int| 0 <= i < d.len() ==> 48 <= #[trigger] d[i] < 48 + radix
}

/// What is read as a number is digits of the radix, behind a plus sign or not,
/// that are worth no more than a word holds; anything else is no number.
pub proof fn numbers_are_digits(s: Seq<u8>, d: Seq<u8>, radix: nat)
    requires
        2 <= radix <= 10,
        d == s && !(s.len() > 0 && s[0] == 43) || s == seq![43u8] + d,
    ensures
        ({
            let fits = d.len() > 0 && in_radix(d, radix) && digits_value(d, radix) < 0x1_0000_0000;
            &&& fits ==> number(s, radix) == Some(digits_value(d, radix) as u32)
            &&& !fits ==> number(s, radix) is None
        }),
{
    if s == seq![43u8] + d {
        assert(s[0] == 43);
        assert(s.skip(1) =~= d);
    }
    assert(unsigned_digits(s) == d);
    if all_digits(d, radix) {
        assert forall|i: int| 0 <= i < d.len() implies 48 <= #[trigger] d[i] < 48 + radix by {
            assert(is_digit(d[i], radix));
        }
    }
    if in_radix(d, radix) {
        assert forall|i: int| 0 <= i < d.len() implies is_digit(#[trigger] d[i], radix) by {}
    }
}

} // verus!
