//! Numbers of the library: integers that count thousandths.
//!
//! Lengths, widths, angles (in degrees) and the roughness are held as `i64`
//! counts of thousandths of a unit, so `1500` stands for one and a half. This
//! module reads such numbers from decimal text and holds the arithmetic that
//! the engines share.

use vstd::prelude::*;
use crate::text::first_index;
use crate::text::find_char;
use crate::text::lemma_first_index;

verus! {

/// One whole unit, in thousandths.
pub const UNIT: i64 = 1000;

/// The largest whole part that decimal text may have.
pub const WHOLE_MAX: i64 = 1_000_000_000;

/// The largest magnitude of a number read from decimal text.
pub const DECIMAL_MAX: i64 = 1_000_000_000_999;

/// The largest magnitude of a number that a configuration holds.
pub const VALUE_MAX: i64 = 0x400_0000_0000;

/// A full turn, in thousandths of a degree.
pub const FULL_TURN: i64 = 360_000;

/// Whether `c` is one of the ten decimal digits.
pub open spec fn is_digit(c: char) -> bool {
    '0' <= c <= '9'
}

/// The number that the digit `c` stands for.
pub open spec fn digit_value(c: char) -> int {
    c as u32 - '0' as u32
}

/// Whether `s` holds decimal digits only.
pub open spec fn all_digits(s: Seq<char>) -> bool {
    forall|i: int| 0 <= i < s.len() ==> is_digit(#[trigger] s[i])
}

/// The number that the decimal digits of `s` write.
pub open spec fn digits_value(s: Seq<char>) -> nat
    decreases s.len(),
{
    if s.len() == 0 {
        0
    } else {
        (digits_value(s.drop_last()) * 10 + digit_value(s.last())) as nat
    }
}

/// The first three digits after the point, as thousandths; further digits
/// are cut off.
pub open spec fn thousandths(frac: Seq<char>) -> int {
    (if frac.len() > 0 {
        100 * digit_value(frac[0])
    } else {
        0
    }) + (if frac.len() > 1 {
        10 * digit_value(frac[1])
    } else {
        0
    }) + (if frac.len() > 2 {
        digit_value(frac[2])
    } else {
        0
    })
}

/// The digits after the first point of `body`, empty where it has none.
pub open spec fn fraction_of(body: Seq<char>) -> Seq<char> {
    let dot = first_index(body, '.');
    if dot < body.len() {
        body.skip((dot + 1) as int)
    } else {
        Seq::empty()
    }
}

/// The value of decimal text without a sign, in thousandths: digits, then
/// optionally a point and digits, with at least one digit in all and a whole
/// part of at most `WHOLE_MAX`.
pub open spec fn unsigned_decimal(body: Seq<char>) -> Option<int> {
    let whole = body.take(first_index(body, '.') as int);
    let frac = fraction_of(body);
    if whole.len() + frac.len() == 0 || !all_digits(whole) || !all_digits(frac) || digits_value(
        whole,
    ) > WHOLE_MAX {
        None
    } else {
        Some(digits_value(whole) * 1000 + thousandths(frac))
    }
}

/// The value of decimal text in thousandths: an optional `+` or `-`, then an
/// unsigned decimal. `None` for every other text.
pub open spec fn decimal(s: Seq<char>) -> Option<int> {
    if s.len() > 0 && s[0] == '-' {
        match unsigned_decimal(s.skip(1)) {
            Some(v) => Some(-v),
            None => None,
        }
    } else if s.len() > 0 && s[0] == '+' {
        unsigned_decimal(s.skip(1))
    } else {
        unsigned_decimal(s)
    }
}

/// The value of the text of a colour channel: an optional `+`, then digits
/// that write a number of at most 255.
pub open spec fn byte(s: Seq<char>) -> Option<int> {
    let body = if s.len() > 0 && s[0] == '+' {
        s.skip(1)
    } else {
        s
    };
    if body.len() == 0 || !all_digits(body) || digits_value(body) > 255 {
        None
    } else {
        Some(digits_value(body) as int)
    }
}

/// The first digits of a number write no more than all of its digits.
pub proof fn lemma_digits_grow(s: Seq<char>, k: int)
    requires
        all_digits(s),
        0 <= k <= s.len(),
    ensures
        digits_value(s.take(k)) <= digits_value(s),
    decreases s.len() - k,
{
    if k < s.len() {
        lemma_digits_grow(s, k + 1);
        assert(s.take(k + 1).drop_last() == s.take(k));
        assert(is_digit(s[k]));
        assert(s.take(k + 1).last() == s[k]);
    } else {
        assert(s.take(k) == s);
    }
}

/// A number read from decimal text is within `DECIMAL_MAX`.
pub proof fn lemma_decimal_bound(s: Seq<char>)
    ensures
        decimal(s) matches Some(v) ==> -DECIMAL_MAX <= v <= DECIMAL_MAX,
        unsigned_decimal(s) matches Some(v) ==> 0 <= v <= DECIMAL_MAX,
{
    let body = if s.len() > 0 && (s[0] == '-' || s[0] == '+') {
        s.skip(1)
    } else {
        s
    };
    lemma_unsigned_bound(body);
    lemma_unsigned_bound(s);
}

proof fn lemma_unsigned_bound(body: Seq<char>)
    ensures
        unsigned_decimal(body) matches Some(v) ==> 0 <= v <= DECIMAL_MAX,
{
    if unsigned_decimal(body) is Some {
        let frac = fraction_of(body);
        if frac.len() > 0 {
            assert(is_digit(frac[0]));
        }
        if frac.len() > 1 {
            assert(is_digit(frac[1]));
        }
        if frac.len() > 2 {
            assert(is_digit(frac[2]));
        }
    }
}

fn digit_of(c: char) -> (d: Option<u64>)
    ensures
        d is Some <==> is_digit(c),
        d matches Some(x) ==> x == digit_value(c) && x <= 9,
{
    let u: u32 = c as u32;
    if 48 <= u && u <= 57 {
        Some((u - 48) as u64)
    } else {
        None
    }
}

/// Reads the digits of `v` from `from` up to `to`: their value where all of
/// them are digits and the value is at most `cap`.
fn read_digits(v: &Vec<char>, from: usize, to: usize, cap: u64) -> (r: Option<u64>)
    requires
        from <= to <= v.len(),
        cap <= 0x1000_0000_0000,
    ensures
        r is Some <==> all_digits(v@.subrange(from as int, to as int)) && digits_value(
            v@.subrange(from as int, to as int),
        ) <= cap,
        r matches Some(x) ==> x == digits_value(v@.subrange(from as int, to as int)),
{
    let ghost s = v@.subrange(from as int, to as int);
    let mut acc: u64 = 0;
    let mut i: usize = from;
    assert(s.take(0) == Seq::<char>::empty());
    while i < to
        invariant
            from <= i <= to <= v.len(),
            s == v@.subrange(from as int, to as int),
            cap <= 0x1000_0000_0000,
            acc <= cap,
            all_digits(s.take(i - from)),
            acc == digits_value(s.take(i - from)),
        decreases to - i,
    {
        let ghost p = s.take(i - from + 1);
        assert(p.drop_last() == s.take(i - from));
        assert(p.last() == v@[i as int]);
        match digit_of(v[i]) {
            None => {
                assert(!is_digit(s[i - from]));
                return None;
            },
            Some(d) => {
                let next: u64 = acc * 10 + d;
                assert(next == digits_value(p));
                assert(all_digits(p)) by {
                    assert forall|j: int| 0 <= j < p.len() implies is_digit(#[trigger] p[j]) by {
                        if j < p.len() - 1 {
                            assert(p[j] == s.take(i - from)[j]);
                        }
                    }
                }
                if next > cap {
                    proof {
                        if all_digits(s) {
                            lemma_digits_grow(s, i - from + 1);
                        }
                    }
                    return None;
                }
                acc = next;
            },
        }
        i += 1;
    }
    assert(s.take(to - from) == s);
    Some(acc)
}

fn read_unsigned(v: &Vec<char>, from: usize) -> (r: Option<i64>)
    requires
        from <= v.len(),
    ensures
        r is Some <==> unsigned_decimal(v@.skip(from as int)) is Some,
        r matches Some(x) ==> unsigned_decimal(v@.skip(from as int)) == Some(x as int),
{
    let ghost body = v@.skip(from as int);
    let dot = find_char(v, from, '.');
    proof {
        lemma_first_index(body, '.');
        assert(body.take(dot - from) == v@.subrange(from as int, dot as int));
    }
    let frac_from: usize = if dot < v.len() {
        dot + 1
    } else {
        dot
    };
    proof {
        if dot < v.len() {
            assert(body.skip(dot - from + 1) == v@.subrange(frac_from as int, v.len() as int));
        } else {
            assert(Seq::<char>::empty() == v@.subrange(frac_from as int, v.len() as int));
        }
        assert(fraction_of(body) == v@.subrange(frac_from as int, v.len() as int));
    }
    if dot - from + (v.len() - frac_from) == 0 {
        return None;
    }
    let whole = match read_digits(v, from, dot, WHOLE_MAX as u64) {
        None => {
            return None;
        },
        Some(w) => w,
    };
    let mut frac: u64 = 0;
    let mut scale: u64 = 100;
    let mut i: usize = frac_from;
    let ghost f = fraction_of(body);
    while i < v.len()
        invariant
            frac_from <= i <= v.len(),
            from <= v.len(),
            body == v@.skip(from as int),
            f == fraction_of(body),
            f == v@.subrange(frac_from as int, v.len() as int),
            body.take(first_index(body, '.') as int).len() + f.len() != 0,
            all_digits(body.take(first_index(body, '.') as int)),
            whole == digits_value(body.take(first_index(body, '.') as int)),
            whole <= WHOLE_MAX,
            forall|j: int| 0 <= j < i - frac_from ==> is_digit(#[trigger] f[j]),
            i - frac_from == 0 ==> scale == 100 && frac == 0,
            i - frac_from == 1 ==> scale == 10 && frac == 100 * digit_value(f[0]),
            i - frac_from == 2 ==> scale == 1 && frac == 100 * digit_value(f[0]) + 10
                * digit_value(f[1]),
            i - frac_from >= 3 ==> scale == 0 && frac == 100 * digit_value(f[0]) + 10
                * digit_value(f[1]) + digit_value(f[2]),
            frac <= 999,
        decreases v.len() - i,
    {
        assert(f[i - frac_from] == v@[i as int]);
        match digit_of(v[i]) {
            None => {
                assert(!is_digit(f[i - frac_from]));
                return None;
            },
            Some(d) => {
                frac = frac + d * scale;
                scale = scale / 10;
            },
        }
        i += 1;
    }
    assert(all_digits(f));
    assert(frac == thousandths(f));
    Some((whole * 1000 + frac) as i64)
}

/// Reads a number from decimal text, in thousandths.
pub fn parse_decimal(v: &Vec<char>) -> (r: Option<i64>)
    ensures
        r is Some <==> decimal(v@) is Some,
        r matches Some(x) ==> decimal(v@) == Some(x as int) && -DECIMAL_MAX <= x <= DECIMAL_MAX,
{
    proof {
        lemma_decimal_bound(v@);
        assert(v@.skip(0) == v@);
    }
    if v.len() > 0 && v[0] == '-' {
        match read_unsigned(v, 1) {
            Some(x) => {
                proof {
                    lemma_decimal_bound(v@.skip(1));
                }
                Some(-x)
            },
            None => None,
        }
    } else if v.len() > 0 && v[0] == '+' {
        read_unsigned(v, 1)
    } else {
        read_unsigned(v, 0)
    }
}

/// Reads a colour channel from text.
pub fn parse_byte(v: &Vec<char>) -> (r: Option<u8>)
    ensures
        r is Some <==> byte(v@) is Some,
        r matches Some(x) ==> byte(v@) == Some(x as int),
{
    let from: usize = if v.len() > 0 && v[0] == '+' {
        1
    } else {
        0
    };
    proof {
        assert(v@.skip(0) == v@);
        assert(v@.skip(from as int) == v@.subrange(from as int, v.len() as int));
    }
    if from == v.len() {
        return None;
    }
    match read_digits(v, from, v.len(), 255) {
        Some(x) => Some(x as u8),
        None => None,
    }
}

/// `a / b` rounded down, for a positive `b`.
pub fn div_floor(a: i128, b: i128) -> (q: i128)
    requires
        b > 0,
    ensures
        q == a / b,
{
    if a >= 0 {
        a / b
    } else {
        let n: i128 = -(a + 1);
        let q: i128 = n / b;
        assert(a / b == -(n / b) - 1) by (nonlinear_arith)
            requires
                n == -(a + 1),
                n >= 0,
                b > 0,
        ;
        -q - 1
    }
}

} // verus!
