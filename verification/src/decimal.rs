//! Decimal integers as text: what `str::parse` accepts for the integer types,
//! and the text that `to_string` gives for a non-negative integer.
use vstd::prelude::*;
use crate::text::{is_digit, spec_digit};

verus! {

/// The value of an ASCII digit.
pub open spec fn digit_value(c: char) -> int {
    c as int - '0' as int
}

/// Every character is an ASCII digit.
pub open spec fn all_digits(s: Seq<char>) -> bool {
    forall|i: int| 0 <= i < s.len() ==> spec_digit(#[trigger] s[i])
}

/// The number that a run of decimal digits denotes.
pub open spec fn digits_value(ds: Seq<char>) -> int
    decreases ds.len(),
{
    if ds.len() == 0 {
        0
    } else {
        digits_value(ds.drop_last()) * 10 + digit_value(ds.last())
    }
}

/// What `str::parse` gives for an integer type, before its range is checked:
/// an optional `+` (or `-` for a signed type) and at least one ASCII digit.
pub open spec fn spec_parse_int(s: Seq<char>, signed: bool) -> Option<int> {
    if s.len() == 0 {
        None
    } else if (s[0] == '+' || s[0] == '-') && s.len() == 1 {
        None
    } else if s[0] == '+' {
        if all_digits(s.drop_first()) {
            Some(digits_value(s.drop_first()))
        } else {
            None
        }
    } else if s[0] == '-' && signed {
        if all_digits(s.drop_first()) {
            Some(-digits_value(s.drop_first()))
        } else {
            None
        }
    } else if all_digits(s) {
        Some(digits_value(s))
    } else {
        None
    }
}

/// `str::parse` for an integer type whose values are `lo..=hi`.
pub open spec fn spec_parse_in(s: Seq<char>, signed: bool, lo: int, hi: int) -> Option<int> {
    match spec_parse_int(s, signed) {
        Some(v) => if lo <= v <= hi {
            Some(v)
        } else {
            None
        },
        None => None,
    }
}

/// The character of a digit `0..=9`.
pub open spec fn digit_char(d: int) -> char {
    (d + '0' as int) as char
}

/// The text that `to_string` gives for a non-negative integer.
pub open spec fn spec_decimal(n: nat) -> Seq<char>
    decreases n,
{
    if n < 10 {
        seq![digit_char(n as int)]
    } else {
        spec_decimal(n / 10).push(digit_char((n % 10) as int))
    }
}

pub proof fn lemma_digits_value_nonneg(ds: Seq<char>)
    requires
        all_digits(ds),
    ensures
        digits_value(ds) >= 0,
    decreases ds.len(),
{
    if ds.len() > 0 {
        lemma_digits_value_nonneg(ds.drop_last());
    }
}

pub proof fn lemma_digits_prefix_le(ds: Seq<char>, i: int)
    requires
        all_digits(ds),
        0 <= i <= ds.len(),
    ensures
        0 <= digits_value(ds.take(i)) <= digits_value(ds),
    decreases ds.len(),
{
    if i == ds.len() {
        assert(ds.take(i) =~= ds);
        lemma_digits_value_nonneg(ds);
    } else {
        lemma_digits_prefix_le(ds.drop_last(), i);
        assert(ds.drop_last().take(i) =~= ds.take(i));
        lemma_digits_value_nonneg(ds.drop_last());
    }
}

/// Converting `to_string` text back with `str::parse` gives the number again.
pub proof fn lemma_decimal_roundtrip(n: nat)
    ensures
        all_digits(spec_decimal(n)),
        spec_decimal(n).len() >= 1,
        digits_value(spec_decimal(n)) == n,
        spec_digit(spec_decimal(n)[0]),
    decreases n,
{
    if n < 10 {
        assert(spec_decimal(n).drop_last() =~= Seq::<char>::empty());
        assert(digit_value(digit_char(n as int)) == n);
        assert(spec_decimal(n).last() == digit_char(n as int));
        assert(digits_value(spec_decimal(n).drop_last()) == 0);
        assert(digits_value(spec_decimal(n)) == n);
    } else {
        assert(digit_value(digit_char((n % 10) as int)) == n % 10);
        lemma_decimal_roundtrip(n / 10);
        let s = spec_decimal(n);
        assert(s.drop_last() =~= spec_decimal(n / 10));
        assert((n / 10) * 10 + n % 10 == n) by (nonlinear_arith);
        assert(s[0] == spec_decimal(n / 10)[0]);
        assert(s.last() == digit_char((n % 10) as int));
        assert(digits_value(s) == digits_value(spec_decimal(n / 10)) * 10 + (n % 10));
    }
}

/// Reading back the decimal text of a value in range gives the value, for
/// signed and unsigned types alike.
pub proof fn lemma_parse_decimal(n: nat, signed: bool, lo: int, hi: int)
    requires
        lo <= n <= hi,
    ensures
        spec_parse_in(spec_decimal(n), signed, lo, hi) == Some(n as int),
{
    lemma_decimal_roundtrip(n);
}

fn digit_of(c: char) -> (d: u64)
    requires
        spec_digit(c),
    ensures
        d == digit_value(c),
{
    ((c as u32) - ('0' as u32)) as u64
}

/// The value of `ds[start..]` if it is a non-empty run of digits whose value fits in a `u64`.
fn parse_magnitude(ds: &[char], start: usize) -> (r: Option<u64>)
    requires
        start <= ds.len(),
    ensures
        ({
            let t = ds@.subrange(start as int, ds.len() as int);
            match r {
                Some(v) => t.len() > 0 && all_digits(t) && v == digits_value(t),
                None => t.len() == 0 || !all_digits(t) || digits_value(t) > u64::MAX,
            }
        }),
{
    let ghost t = ds@.subrange(start as int, ds.len() as int);
    if start == ds.len() {
        return None;
    }
    let mut acc: u64 = 0;
    let mut i: usize = start;
    let mut overflow = false;
    assert(t.take(0) =~= Seq::<char>::empty());
    while i < ds.len()
        invariant
            start <= i <= ds.len(),
            t == ds@.subrange(start as int, ds.len() as int),
            forall|k: int| start <= k < i ==> spec_digit(#[trigger] ds@[k]),
            !overflow ==> acc == digits_value(t.take(i - start)),
            overflow ==> digits_value(t.take(i - start)) > u64::MAX,
        decreases ds.len() - i,
    {
        let c = ds[i];
        if !is_digit(c) {
            assert(t[i - start] == c);
            return None;
        }
        assert(t.take(i - start + 1).drop_last() =~= t.take(i - start));
        assert(t.take(i - start + 1).last() == c);
        proof {
            assert(all_digits(t.take(i - start))) by {
                assert forall|k: int| 0 <= k < t.take(i - start).len() implies spec_digit(
                    #[trigger] t.take(i - start)[k],
                ) by {
                    assert(t.take(i - start)[k] == ds@[start + k]);
                }
            }
            lemma_digits_value_nonneg(t.take(i - start));
        }
        if !overflow {
            match acc.checked_mul(10) {
                Some(m) => match m.checked_add(digit_of(c)) {
                    Some(v) => {
                        acc = v;
                    },
                    None => {
                        overflow = true;
                    },
                },
                None => {
                    overflow = true;
                },
            }
        } else {
            assert(digits_value(t.take(i - start)) * 10 + digit_value(c) > u64::MAX) by (
            nonlinear_arith)
                requires
                    digits_value(t.take(i - start)) > u64::MAX,
                    digit_value(c) >= 0,
            ;
        }
        i += 1;
    }
    assert(t.take(ds.len() - start) =~= t);
    assert(all_digits(t)) by {
        assert forall|k: int| 0 <= k < t.len() implies spec_digit(#[trigger] t[k]) by {
            assert(t[k] == ds@[start + k]);
        }
    }
    if overflow {
        None
    } else {
        Some(acc)
    }
}

/// `str::parse::<u64>`.
pub fn parse_u64(s: &[char]) -> (r: Option<u64>)
    ensures
        r == (match spec_parse_in(s@, false, 0, u64::MAX as int) {
            Some(v) => Some(v as u64),
            None => None,
        }),
{
    if s.len() == 0 {
        return None;
    }
    if (s[0] == '+' || s[0] == '-') && s.len() == 1 {
        return None;
    }
    let start: usize = if s[0] == '+' {
        1
    } else {
        0
    };
    assert(s@.subrange(1, s@.len() as int) =~= s@.drop_first());
    assert(s@.subrange(0, s@.len() as int) =~= s@);
    let r = parse_magnitude(s, start);
    proof {
        let t = s@.subrange(start as int, s.len() as int);
        if all_digits(t) {
            lemma_digits_value_nonneg(t);
        }
        if start == 0 && s@[0] == '-' {
            assert(!spec_digit(t[0]));
        }
    }
    r
}

/// `str::parse::<u16>`.
pub fn parse_u16(s: &[char]) -> (r: Option<u16>)
    ensures
        r == (match spec_parse_in(s@, false, 0, u16::MAX as int) {
            Some(v) => Some(v as u16),
            None => None,
        }),
{
    match parse_u64(s) {
        Some(v) => if v <= 65535 {
            Some(v as u16)
        } else {
            None
        },
        None => {
            proof {
                let p = spec_parse_int(s@, false);
                if p is Some {
                    assert(!(0 <= p->0 <= u64::MAX));
                }
            }
            None
        },
    }
}

/// `str::parse::<i32>`.
pub fn parse_i32(s: &[char]) -> (r: Option<i32>)
    ensures
        r == (match spec_parse_in(s@, true, i32::MIN as int, i32::MAX as int) {
            Some(v) => Some(v as i32),
            None => None,
        }),
{
    if s.len() == 0 {
        return None;
    }
    if (s[0] == '+' || s[0] == '-') && s.len() == 1 {
        return None;
    }
    let neg = s[0] == '-';
    let start: usize = if s[0] == '+' || s[0] == '-' {
        1
    } else {
        0
    };
    assert(s@.subrange(1, s@.len() as int) =~= s@.drop_first());
    assert(s@.subrange(0, s@.len() as int) =~= s@);
    let m = parse_magnitude(s, start);
    proof {
        let t = s@.subrange(start as int, s.len() as int);
        if all_digits(t) {
            lemma_digits_value_nonneg(t);
        }
    }
    match m {
        Some(v) => {
            if neg {
                if v <= 2147483648 {
                    Some((0i64 - v as i64) as i32)
                } else {
                    None
                }
            } else {
                if v <= 2147483647 {
                    Some(v as i32)
                } else {
                    None
                }
            }
        },
        None => None,
    }
}

fn digit_to_char(d: u64) -> (c: char)
    requires
        d < 10,
    ensures
        c == digit_char(d as int),
{
    let b: u8 = (d as u8) + 48u8;
    b as char
}

/// `to_string` of a `u64`.
pub fn decimal_u64(n: u64) -> (r: Vec<char>)
    ensures
        r@ == spec_decimal(n as nat),
    decreases n,
{
    if n < 10 {
        let mut r: Vec<char> = Vec::new();
        r.push(digit_to_char(n));
        assert(r@ =~= seq![digit_char(n as int)]);
        r
    } else {
        let mut r = decimal_u64(n / 10);
        r.push(digit_to_char(n % 10));
        r
    }
}

/// The text that `to_string` gives for an integer, with `-` before a negative one.
pub open spec fn spec_signed_decimal(v: int) -> Seq<char> {
    if v < 0 {
        seq!['-'] + spec_decimal((-v) as nat)
    } else {
        spec_decimal(v as nat)
    }
}

/// `to_string` of an `i32`.
pub fn decimal_i32(v: i32) -> (r: Vec<char>)
    ensures
        r@ == spec_signed_decimal(v as int),
{
    if v < 0 {
        let m: i64 = 0i64 - (v as i64);
        let mut r: Vec<char> = Vec::new();
        r.push('-');
        let d = decimal_u64(m as u64);
        crate::text::append(&mut r, &d);
        r
    } else {
        decimal_u64(v as u64)
    }
}

} // verus!
