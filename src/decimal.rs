use vstd::prelude::*;

use crate::text::{pow10, pow10_exec};
use crate::types::SCALE;

verus! {

pub open spec fn is_digit(c: char) -> bool {
    '0' <= c && c <= '9'
}

pub open spec fn digit_of(c: char) -> int {
    c as int - '0' as int
}

/// Value of a string of decimal digits.
pub open spec fn digits_value(s: Seq<char>) -> int
    decreases s.len(),
{
    if s.len() == 0 {
        0
    } else {
        digits_value(s.drop_last()) * 10 + digit_of(s.last())
    }
}

pub open spec fn all_digits(s: Seq<char>) -> bool {
    forall|i: int| 0 <= i < s.len() ==> is_digit(#[trigger] s[i])
}

/// Index of the first non-digit of `s` at or after `i`.
pub open spec fn digits_end(s: Seq<char>, i: int) -> int
    decreases s.len() - i,
{
    if 0 <= i < s.len() && is_digit(s[i]) {
        digits_end(s, i + 1)
    } else {
        i
    }
}

/// Fraction digits as fixed-point units: the first eight, padded with zeros.
pub open spec fn frac_units(f: Seq<char>) -> int {
    if f.len() >= 8 {
        digits_value(f.take(8))
    } else {
        digits_value(f) * pow10((8 - f.len()) as nat)
    }
}

/// Fixed-point value of a decimal text: an optional `-`, one or more digits,
/// then optionally `.` and digits. Decimals past the eighth are dropped. `None`
/// for any other text or a value beyond `i64::MAX` in magnitude.
pub open spec fn decimal_value(t: Seq<char>) -> Option<int> {
    let negative = t.len() > 0 && t[0] == '-';
    let body = if negative {
        t.skip(1)
    } else {
        t
    };
    let k = digits_end(body, 0);
    let frac = if k < body.len() {
        body.skip(k + 1)
    } else {
        Seq::empty()
    };
    let magnitude = digits_value(body.take(k)) * SCALE + frac_units(frac);
    if k == 0 || (k < body.len() && (body[k] != '.' || !all_digits(frac))) || magnitude > i64::MAX {
        None
    } else {
        Some(
            if negative {
                -magnitude
            } else {
                magnitude
            },
        )
    }
}

proof fn lemma_digits_value_nonneg(s: Seq<char>)
    requires
        all_digits(s),
    ensures
        digits_value(s) >= 0,
    decreases s.len(),
{
    if s.len() > 0 {
        assert(is_digit(s[s.len() - 1]));
        assert(all_digits(s.drop_last())) by {
            assert forall|i: int| 0 <= i < s.drop_last().len() implies is_digit(#[trigger] s.drop_last()[i]) by {
                assert(s.drop_last()[i] == s[i]);
            }
        }
        lemma_digits_value_nonneg(s.drop_last());
    }
}

proof fn lemma_all_digits_take(s: Seq<char>, m: int, k: int)
    requires
        0 <= m <= k <= s.len(),
        all_digits(s.take(k)),
    ensures
        all_digits(s.take(m)),
{
    assert forall|i: int| 0 <= i < s.take(m).len() implies is_digit(#[trigger] s.take(m)[i]) by {
        assert(s.take(m)[i] == s.take(k)[i]);
    }
}

proof fn lemma_digits_value_monotone(s: Seq<char>, m: int, k: int)
    requires
        0 <= m <= k <= s.len(),
        all_digits(s.take(k)),
    ensures
        digits_value(s.take(m)) <= digits_value(s.take(k)),
    decreases k - m,
{
    if m < k {
        lemma_all_digits_take(s, k - 1, k);
        lemma_digits_value_monotone(s, m, k - 1);
        assert(s.take(k).drop_last() =~= s.take(k - 1));
        lemma_digits_value_nonneg(s.take(k - 1));
        assert(is_digit(s.take(k)[k - 1]));
    }
}

proof fn lemma_digits_end(s: Seq<char>, i: int)
    requires
        0 <= i <= s.len(),
    ensures
        i <= digits_end(s, i) <= s.len(),
        forall|j: int| i <= j < digits_end(s, i) ==> is_digit(#[trigger] s[j]),
    decreases s.len() - i,
{
    if i < s.len() && is_digit(s[i]) {
        lemma_digits_end(s, i + 1);
    }
}

proof fn lemma_frac_units_nonneg(f: Seq<char>)
    requires
        all_digits(f),
    ensures
        frac_units(f) >= 0,
{
    if f.len() >= 8 {
        lemma_all_digits_take(f, 8, f.len() as int);
        assert(f.take(f.len() as int) =~= f);
        lemma_digits_value_nonneg(f.take(8));
    } else {
        lemma_digits_value_nonneg(f);
        let p = pow10((8 - f.len()) as nat);
        assert(digits_value(f) * p >= 0) by (nonlinear_arith)
            requires
                digits_value(f) >= 0,
                p >= 0,
        ;
    }
}

/// Once the digits before the point are worth more than `i64::MAX`, the text has no value.
proof fn lemma_int_part_too_large(body: Seq<char>, m: int, v: int)
    requires
        1 <= m <= body.len(),
        digits_end(body, 0) == digits_end(body, m - 1),
        is_digit(body[m - 1]),
        all_digits(body.take(m)),
        v == digits_value(body.take(m)),
        v > i64::MAX,
    ensures
        ({
            let k = digits_end(body, 0);
            let frac = if k < body.len() {
                body.skip(k + 1)
            } else {
                Seq::<char>::empty()
            };
            (k < body.len() && (body[k] != '.' || !all_digits(frac))) || digits_value(body.take(k)) * SCALE
                + frac_units(frac) > i64::MAX
        }),
{
    let k = digits_end(body, 0);
    assert(k == digits_end(body, m));
    lemma_digits_end(body, m);
    assert(all_digits(body.take(k))) by {
        assert forall|j: int| 0 <= j < body.take(k).len() implies is_digit(#[trigger] body.take(k)[j]) by {
            if j < m {
                assert(body.take(k)[j] == body.take(m)[j]);
            } else {
                assert(body.take(k)[j] == body[j]);
            }
        }
    }
    lemma_digits_value_monotone(body, m, k);
    let frac = if k < body.len() {
        body.skip(k + 1)
    } else {
        Seq::<char>::empty()
    };
    if !(k < body.len() && (body[k] != '.' || !all_digits(frac))) {
        lemma_frac_units_nonneg(frac);
        let d = digits_value(body.take(k));
        assert(d * SCALE >= d) by (nonlinear_arith)
            requires
                d > 0,
        ;
    }
}

/// Reads a decimal text as a fixed-point value with eight decimals.
pub fn parse_fixed(text: &str) -> (r: Option<i64>)
    ensures
        r matches Some(v) ==> decimal_value(text@) == Some(v as int),
        r is None ==> decimal_value(text@) is None,
{
    let n = text.unicode_len();
    let negative = n > 0 && text.get_char(0) == '-';
    let start: usize = if negative {
        1
    } else {
        0
    };
    let ghost t = text@;
    let ghost body = if negative {
        t.skip(1)
    } else {
        t
    };
    assert(body.len() == n - start);
    assert(forall|j: int| 0 <= j < body.len() ==> body[j] == t[start + j]);
    let limit: i128 = i64::MAX as i128;
    let mut int_value: i128 = 0;
    let mut i: usize = start;
    while i < n && '0' <= text.get_char(i) && text.get_char(i) <= '9'
        invariant
            start <= i <= n == t.len(),
            text@ == t,
            body.len() == n - start,
            forall|j: int| 0 <= j < body.len() ==> body[j] == t[start + j],
            digits_end(body, 0) == digits_end(body, i - start),
            all_digits(body.take(i - start)),
            int_value == digits_value(body.take(i - start)),
            0 <= int_value <= limit,
            limit == i64::MAX,
            negative == (t.len() > 0 && t[0] == '-'),
            body == (if negative {
                t.skip(1)
            } else {
                t
            }),
            start == (if negative {
                1usize
            } else {
                0usize
            }),
        decreases n - i,
    {
        let d = text.get_char(i) as u32 - '0' as u32;
        let ghost pre = body.take(i - start);
        let ghost next = body.take(i - start + 1);
        assert(next.drop_last() =~= pre);
        assert(next.last() == body[i - start]);
        assert(all_digits(next)) by {
            assert forall|j: int| 0 <= j < next.len() implies is_digit(#[trigger] next[j]) by {
                if j < pre.len() {
                    assert(next[j] == pre[j]);
                }
            }
        }
        int_value = int_value * 10 + d as i128;
        if int_value > limit {
            proof {
                lemma_int_part_too_large(body, i - start + 1, int_value as int);
            }
            return None;
        }
        i = i + 1;
    }
    let k = i - start;
    assert(digits_end(body, 0) == k);
    if k == 0 {
        return None;
    }
    let mut frac_value: i128 = 0;
    let mut frac_len: usize = 0;
    if i < n {
        assert(body[k as int] == t[i as int]);
        if text.get_char(i) != '.' {
            return None;
        }
        let ghost frac = body.skip(k + 1);
        let mut j: usize = i + 1;
        while j < n
            invariant
                i < n == t.len(),
                text@ == t,
                i + 1 <= j <= n,
                frac =~= body.skip(k + 1),
                frac.len() == n - i - 1,
                forall|m: int| 0 <= m < frac.len() ==> frac[m] == t[i + 1 + m],
                all_digits(frac.take(j - i - 1)),
                frac_len == (if j - i - 1 <= 8 {
                    j - i - 1
                } else {
                    8
                }),
                frac_value == digits_value(frac.take(frac_len as int)),
                0 <= frac_value < pow10(frac_len as nat),
                k == i - start,
                k < body.len(),
                digits_end(body, 0) == k,
                body[k as int] == '.',
                negative == (t.len() > 0 && t[0] == '-'),
                body == (if negative {
                    t.skip(1)
                } else {
                    t
                }),
            decreases n - j,
        {
            proof {
                reveal_with_fuel(pow10, 9);
            }
            let c = text.get_char(j);
            if c < '0' || c > '9' {
                assert(!is_digit(frac[j - i - 1]));
                return None;
            }
            let ghost pre = frac.take(j - i - 1);
            let ghost next = frac.take(j - i);
            assert(all_digits(next)) by {
                assert forall|m: int| 0 <= m < next.len() implies is_digit(#[trigger] next[m]) by {
                    if m < pre.len() {
                        assert(next[m] == pre[m]);
                    }
                }
            }
            if frac_len < 8 {
                let ghost fp = frac.take(frac_len as int);
                let ghost fq = frac.take(frac_len as int + 1);
                assert(fq.drop_last() =~= fp);
                assert(fq.last() == frac[frac_len as int]);
                frac_value = frac_value * 10 + (c as u32 - '0' as u32) as i128;
                frac_len = frac_len + 1;
            }
            j = j + 1;
        }
        assert(frac.take(n - i - 1) =~= frac);
    }
    proof {
        reveal_with_fuel(pow10, 9);
    }
    let p = pow10_exec(8 - frac_len as u32);
    assert(frac_value < 100_000_000) by {
        crate::text::lemma_pow10_monotone(frac_len as nat, 8);
    }
    assert(p <= 100_000_000) by {
        crate::text::lemma_pow10_monotone((8 - frac_len) as nat, 8);
    }
    assert(0 <= frac_value * p <= 100_000_000 * 100_000_000) by (nonlinear_arith)
        requires
            0 <= frac_value < 100_000_000,
            0 <= p <= 100_000_000,
    ;
    let units: i128 = frac_value * p as i128;
    let magnitude: i128 = int_value * (SCALE as i128) + units;
    if magnitude > limit {
        return None;
    }
    if negative {
        Some(-(magnitude as i64))
    } else {
        Some(magnitude as i64)
    }
}

} // verus!
