use vstd::prelude::*;
use crate::text::{find, find_from};

verus! {

/// Numbers read from a report are fixed-point values counted in millionths.
pub const MICROS: i64 = 1_000_000;

/// Integer parts above this bound cannot be held in millionths by an `i64`.
pub const INT_PART_BOUND: u64 = 10_000_000_000_000;

pub open spec fn is_digit(c: char) -> bool {
    '0' <= c && c <= '9'
}

pub open spec fn all_digits(s: Seq<char>) -> bool {
    forall|i: int| 0 <= i < s.len() ==> is_digit(#[trigger] s[i])
}

pub open spec fn digit_value(c: char) -> nat {
    ((c as u32) - 48) as nat
}

/// The value of a string of decimal digits.
pub open spec fn digits_value(s: Seq<char>) -> nat
    decreases s.len(),
{
    if s.len() == 0 {
        0
    } else {
        digits_value(s.drop_last()) * 10 + digit_value(s.last())
    }
}

/// Length of a leading `+` or `-`, if there is one.
pub open spec fn sign_len(s: Seq<char>) -> int {
    if s.len() > 0 && (s[0] == '-' || s[0] == '+') {
        1
    } else {
        0
    }
}

pub open spec fn is_negative(s: Seq<char>) -> bool {
    s.len() > 0 && s[0] == '-'
}

/// The six fraction digits that millionths keep: the first six, or all of them padded with `0`.
pub open spec fn six_places(f: Seq<char>) -> Seq<char> {
    if f.len() >= 6 {
        f.subrange(0, 6)
    } else {
        f + Seq::new((6 - f.len()) as nat, |i: int| '0')
    }
}

/// A signed decimal number `[+|-]digits[.digits]`, with at least one digit, in millionths.
/// Fraction digits past the sixth are dropped; a magnitude above `i64::MAX` is refused.
pub open spec fn decimal_micros(s: Seq<char>) -> Option<int> {
    let start = sign_len(s);
    let dot = find_from(s, seq!['.'], start);
    let int_end = match dot {
        Some(d) => d,
        None => s.len() as int,
    };
    let frac_start = match dot {
        Some(d) => d + 1,
        None => s.len() as int,
    };
    let ip = s.subrange(start, int_end);
    let fp = s.subrange(frac_start, s.len() as int);
    if all_digits(ip) && all_digits(fp) && ip.len() + fp.len() > 0 {
        let m: int = (digits_value(ip) * 1_000_000 + digits_value(six_places(fp))) as int;
        let v: int = if is_negative(s) {
            -m
        } else {
            m
        };
        if -i64::MAX <= v && v <= i64::MAX {
            Some(v)
        } else {
            None
        }
    } else {
        None
    }
}

/// A signed decimal integer `[+|-]digits` that fits an `i32`.
pub open spec fn int32_value(s: Seq<char>) -> Option<int> {
    let ds = s.subrange(sign_len(s), s.len() as int);
    if ds.len() > 0 && all_digits(ds) {
        let v: int = if is_negative(s) {
            -(digits_value(ds) as int)
        } else {
            digits_value(ds) as int
        };
        if i32::MIN <= v && v <= i32::MAX {
            Some(v)
        } else {
            None
        }
    } else {
        None
    }
}

proof fn lemma_digits_prefix(s: Seq<char>, k: int)
    requires
        0 <= k <= s.len(),
    ensures
        digits_value(s) >= digits_value(s.subrange(0, k)),
    decreases s.len(),
{
    if k < s.len() {
        lemma_digits_prefix(s.drop_last(), k);
        assert(s.drop_last().subrange(0, k) =~= s.subrange(0, k));
    } else {
        assert(s.subrange(0, k) =~= s);
    }
}

proof fn lemma_digits_step(s: Seq<char>, a: int, i: int)
    requires
        0 <= a <= i < s.len(),
    ensures
        digits_value(s.subrange(a, i + 1)) == digits_value(s.subrange(a, i)) * 10 + digit_value(
            s[i],
        ),
{
    assert(s.subrange(a, i + 1).drop_last() =~= s.subrange(a, i));
}

fn digit_of(c: char) -> (r: u64)
    requires
        is_digit(c),
    ensures
        r == digit_value(c),
{
    ((c as u32) - 48) as u64
}

/// The value of the digits `s[a..b]`, or `None` when one is not a digit or the value passes
/// `INT_PART_BOUND`.
fn bounded_digits(s: &Vec<char>, a: usize, b: usize) -> (r: Option<u64>)
    requires
        a <= b <= s@.len(),
    ensures
        r matches Some(v) ==> all_digits(s@.subrange(a as int, b as int)) && v == digits_value(
            s@.subrange(a as int, b as int),
        ) && v <= INT_PART_BOUND,
        r is None ==> !all_digits(s@.subrange(a as int, b as int)) || digits_value(
            s@.subrange(a as int, b as int),
        ) > INT_PART_BOUND,
{
    let mut acc: u64 = 0;
    let mut i: usize = a;
    while i < b
        invariant
            a <= i <= b <= s@.len(),
            all_digits(s@.subrange(a as int, i as int)),
            acc == digits_value(s@.subrange(a as int, i as int)),
            acc <= INT_PART_BOUND,
        decreases b - i,
    {
        let c = s[i];
        if !('0' <= c && c <= '9') {
            assert(s@.subrange(a as int, b as int)[i - a] == c);
            return None;
        }
        proof {
            lemma_digits_step(s@, a as int, i as int);
        }
        let next = acc * 10 + digit_of(c);
        assert(all_digits(s@.subrange(a as int, i + 1)));
        if next > INT_PART_BOUND {
            proof {
                assert(s@.subrange(a as int, b as int).subrange(0, i + 1 - a) =~= s@.subrange(
                    a as int,
                    i + 1,
                ));
                lemma_digits_prefix(s@.subrange(a as int, b as int), i + 1 - a);
            }
            return None;
        }
        acc = next;
        i = i + 1;
    }
    Some(acc)
}

/// The millionths kept from the fraction digits `s[a..b]`, or `None` when one is not a digit.
fn fraction_micros(s: &Vec<char>, a: usize, b: usize) -> (r: Option<u64>)
    requires
        a <= b <= s@.len(),
    ensures
        r matches Some(v) ==> all_digits(s@.subrange(a as int, b as int)) && v == digits_value(
            six_places(s@.subrange(a as int, b as int)),
        ),
        r is None ==> !all_digits(s@.subrange(a as int, b as int)),
{
    let ghost f = s@.subrange(a as int, b as int);
    let ghost p = six_places(f);
    assert(p.len() == 6);
    assert forall|k: int| 0 <= k < 6 implies p[k] == (if k < f.len() {
        f[k]
    } else {
        '0'
    }) by {}
    let mut i: usize = a;
    while i < b
        invariant
            a <= i <= b <= s@.len(),
            f == s@.subrange(a as int, b as int),
            all_digits(s@.subrange(a as int, i as int)),
        decreases b - i,
    {
        if !('0' <= s[i] && s[i] <= '9') {
            assert(f[i - a] == s@[i as int]);
            return None;
        }
        assert(all_digits(s@.subrange(a as int, i + 1)));
        i = i + 1;
    }
    let mut acc: u64 = 0;
    let mut k: usize = 0;
    while k < 6
        invariant
            0 <= k <= 6,
            a <= b <= s@.len(),
            f == s@.subrange(a as int, b as int),
            all_digits(f),
            p == six_places(f),
            p.len() == 6,
            forall|j: int| 0 <= j < 6 ==> p[j] == (if j < f.len() {
                f[j]
            } else {
                '0'
            }),
            acc == digits_value(p.subrange(0, k as int)),
            acc < 1_000_000,
            k == 0 ==> acc == 0,
            acc < pow10(k as nat),
        decreases 6 - k,
    {
        let c = if k < b - a {
            s[a + k]
        } else {
            '0'
        };
        assert(c == p[k as int]);
        assert(p.subrange(0, k + 1).drop_last() =~= p.subrange(0, k as int));
        proof {
            assert(pow10((k + 1) as nat) == pow10(k as nat) * 10);
        }
        acc = acc * 10 + digit_of(c);
        k = k + 1;
        proof {
            reveal_with_fuel(pow10, 7);
            assert(pow10(6) == 1_000_000);
            lemma_pow10_mono(k as nat, 6);
        }
    }
    assert(p.subrange(0, 6) =~= p);
    Some(acc)
}

pub open spec fn pow10(n: nat) -> nat
    decreases n,
{
    if n == 0 {
        1
    } else {
        pow10((n - 1) as nat) * 10
    }
}

proof fn lemma_pow10_mono(a: nat, b: nat)
    requires
        a <= b,
    ensures
        pow10(a) <= pow10(b),
    decreases b - a,
{
    if a < b {
        lemma_pow10_mono(a, (b - 1) as nat);
    }
}

/// Reads a decimal number in millionths; see `decimal_micros`.
pub fn parse_micros(s: &Vec<char>) -> (r: Option<i64>)
    ensures
        r matches Some(v) ==> decimal_micros(s@) == Some(v as int),
        r is None ==> decimal_micros(s@) is None,
{
    let n = s.len();
    let start: usize = if n > 0 && (s[0] == '-' || s[0] == '+') {
        1
    } else {
        0
    };
    let neg = n > 0 && s[0] == '-';
    let dot_pat: Vec<char> = vec!['.'];
    assert(dot_pat@ =~= seq!['.']);
    let dot = find(s, &dot_pat, start);
    proof {
        if find_from(s@, seq!['.'], start as int) is Some {
            lemma_find_bounds(s@, seq!['.'], start as int);
        }
    }
    let (int_end, frac_start) = match dot {
        Some(d) => (d, d + 1),
        None => (n, n),
    };
    let ip = bounded_digits(s, start, int_end);
    let fp = fraction_micros(s, frac_start, n);
    if int_end - start + (n - frac_start) == 0 {
        return None;
    }
    match (ip, fp) {
        (Some(iv), Some(fv)) => {
            let m: i128 = (iv as i128) * 1_000_000 + (fv as i128);
            let v: i128 = if neg {
                -m
            } else {
                m
            };
            if -(i64::MAX as i128) <= v && v <= i64::MAX as i128 {
                Some(v as i64)
            } else {
                None
            }
        },
        _ => {
            proof {
                if ip is Some && fp is Some {
                } else if ip is None {
                    if all_digits(s@.subrange(start as int, int_end as int)) {
                        let big = digits_value(s@.subrange(start as int, int_end as int));
                        assert(big > INT_PART_BOUND);
                        assert(big * 1_000_000 > i64::MAX + 1) by (nonlinear_arith)
                            requires
                                big > INT_PART_BOUND,
                        ;
                    }
                }
            }
            None
        },
    }
}

pub proof fn lemma_find_bounds(s: Seq<char>, pat: Seq<char>, i: int)
    requires
        find_from(s, pat, i) is Some,
    ensures
        i <= find_from(s, pat, i)->0,
        find_from(s, pat, i)->0 + pat.len() <= s.len(),
        s.subrange(find_from(s, pat, i)->0, find_from(s, pat, i)->0 + pat.len()) == pat,
    decreases s.len() + 1 - i,
{
    if i < 0 || i + pat.len() > s.len() {
    } else if s.subrange(i, i + pat.len()) == pat {
    } else {
        lemma_find_bounds(s, pat, i + 1);
    }
}

/// Reads a decimal integer that fits an `i32`; see `int32_value`.
pub fn parse_int32(s: &Vec<char>) -> (r: Option<i32>)
    ensures
        r matches Some(v) ==> int32_value(s@) == Some(v as int),
        r is None ==> int32_value(s@) is None,
{
    let n = s.len();
    let start: usize = if n > 0 && (s[0] == '-' || s[0] == '+') {
        1
    } else {
        0
    };
    let neg = n > 0 && s[0] == '-';
    if start == n {
        return None;
    }
    match bounded_digits(s, start, n) {
        Some(v) => {
            let w: i64 = if neg {
                -(v as i64)
            } else {
                v as i64
            };
            if i32::MIN as i64 <= w && w <= i32::MAX as i64 {
                Some(w as i32)
            } else {
                None
            }
        },
        None => None,
    }
}

} // verus!
