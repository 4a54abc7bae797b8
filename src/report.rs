use vstd::prelude::*;

use crate::text::{decimal, decimal_of, lemma_decimal_len, lemma_pow10_monotone, pow10, pow10_exec};
use crate::types::{Data, IntradayData, LongerTermData, OIData};

verus! {

pub open spec fn abs_int(x: int) -> int {
    if x < 0 {
        -x
    } else {
        x
    }
}

pub open spec fn sign_text(negative: bool) -> Seq<char> {
    if negative {
        seq!['-']
    } else {
        Seq::empty()
    }
}

pub open spec fn zeros(n: nat) -> Seq<char> {
    Seq::new(n, |i: int| '0')
}

/// `s` with leading zeros up to `n` characters.
pub open spec fn padded(s: Seq<char>, n: nat) -> Seq<char> {
    if s.len() >= n {
        s
    } else {
        zeros((n - s.len()) as nat) + s
    }
}

/// Magnitude of a fixed-point value in units of its last shown decimal, rounded half away from zero.
pub open spec fn rounded_abs(v: int, places: nat) -> nat {
    let unit = pow10((8 - places) as nat) as int;
    ((abs_int(v) + unit / 2) / unit) as nat
}

/// A fixed-point value written with `places` decimals, rounded half away from zero.
pub open spec fn fixed_text(v: int, places: nat) -> Seq<char> {
    let q = rounded_abs(v, places);
    let p = pow10(places);
    sign_text(v < 0) + decimal_of(q / p) + seq!['.'] + padded(decimal_of(q % p), places)
}

/// A value written with a leading minus sign when negative.
pub open spec fn int_text(e: int) -> Seq<char> {
    sign_text(e < 0) + decimal_of(abs_int(e) as nat)
}

/// Three significant digits of `a > 0` (a fixed-point value with `k` digits) and
/// the decimal exponent of its leading digit, rounded half away from zero.
pub open spec fn sci_parts(a: nat, k: nat) -> (nat, int) {
    let m0: nat = if k >= 3 {
        ((a + pow10((k - 3) as nat) / 2) / pow10((k - 3) as nat)) as nat
    } else {
        a * pow10((3 - k) as nat)
    };
    let e0 = k - 9;
    if m0 >= 1000 {
        (m0 / 10, e0 + 1)
    } else {
        (m0, e0)
    }
}

/// A fixed-point value in scientific notation with two decimals, as `1.23e-4`.
pub open spec fn sci_text(v: int) -> Seq<char> {
    let a = abs_int(v) as nat;
    if a == 0 {
        seq!['0', '.', '0', '0', 'e', '0']
    } else {
        let (m, e) = sci_parts(a, decimal_of(a).len());
        let ds = decimal_of(m);
        sign_text(v < 0) + seq![ds[0], '.'] + ds.subrange(1, ds.len() as int) + seq!['e'] + int_text(e)
    }
}

/// Values written with three decimals, separated by `, `.
pub open spec fn joined(vals: Seq<i64>) -> Seq<char>
    decreases vals.len(),
{
    if vals.len() == 0 {
        Seq::empty()
    } else if vals.len() == 1 {
        fixed_text(vals[0] as int, 3)
    } else {
        joined(vals.drop_last()) + seq![',', ' '] + fixed_text(vals.last() as int, 3)
    }
}

/// Values in brackets, as `[1.000, 2.500]`.
pub open spec fn series_text(vals: Seq<i64>) -> Seq<char> {
    seq!['['] + joined(vals) + seq![']']
}

proof fn lemma_decimal_nonempty(n: nat)
    ensures
        decimal_of(n).len() >= 1,
    decreases n,
{
    if n >= 10 {
        lemma_decimal_nonempty(n / 10);
    }
}

/// A fixed-point value written with `places` decimals.
pub fn fixed_str(v: i128, places: u32) -> (r: String)
    requires
        1 <= places <= 8,
        v > i128::MIN,
    ensures
        r@ == fixed_text(v as int, places as nat),
{
    let a: u128 = if v < 0 {
        (-v) as u128
    } else {
        v as u128
    };
    let unit = pow10_exec(8 - places);
    proof {
        reveal_with_fuel(pow10, 9);
    }
    assert(unit <= 10_000_000);
    let q = (a + unit / 2) / unit;
    let p = pow10_exec(places);
    assert(p >= 10);
    let int_part = decimal(q / p);
    let frac = decimal(q % p);
    let mut out = if v < 0 {
        String::from_str("-")
    } else {
        String::new()
    };
    proof {
        reveal_strlit("-");
        reveal_strlit(".");
        reveal_strlit("0");
    }
    out.append(int_part.as_str());
    out.append(".");
    let ghost head = out@;
    assert(head =~= sign_text(v < 0) + decimal_of((q / p) as nat) + seq!['.']);
    let len = frac.as_str().unicode_len();
    let mut k: usize = len;
    while k < places as usize
        invariant
            len <= k,
            k == len || k <= places,
            len == frac@.len(),
            out@ == head + zeros((k - len) as nat),
        decreases places - k,
    {
        proof {
            reveal_strlit("0");
        }
        out.append("0");
        assert(zeros((k + 1 - len) as nat) =~= zeros((k - len) as nat).push('0'));
        assert(out@ =~= head + zeros((k + 1 - len) as nat));
        k = k + 1;
    }
    out.append(frac.as_str());
    proof {
        if len >= places {
            assert(zeros((k - len) as nat) =~= Seq::<char>::empty());
            assert(out@ =~= head + frac@);
        } else {
            assert(k == places);
            assert(out@ =~= head + (zeros((places - len) as nat) + frac@));
        }
    }
    assert(out@ =~= fixed_text(v as int, places as nat));
    out
}

/// Three significant digits and exponent of `a`, which has `k <= 19` digits.
fn sci_parts_exec(a: u128, k: usize) -> (r: (u128, i64))
    requires
        1 <= k <= 19,
        0 < a < 10_000_000_000_000_000_000,
    ensures
        r.0 == sci_parts(a as nat, k as nat).0,
        r.1 == sci_parts(a as nat, k as nat).1,
{
    proof {
        reveal_with_fuel(pow10, 4);
    }
    let m0: u128 = if k >= 3 {
        let div = pow10_exec((k - 3) as u32);
        proof {
            lemma_pow10_monotone(0, (k - 3) as nat);
        }
        (a + div / 2) / div
    } else {
        let f = pow10_exec((3 - k) as u32);
        assert(f <= 100);
        assert(a * f <= 10_000_000_000_000_000_000 * 100) by (nonlinear_arith)
            requires
                a < 10_000_000_000_000_000_000,
                f <= 100,
        ;
        a * f
    };
    let e0: i64 = k as i64 - 9;
    if m0 >= 1000 {
        (m0 / 10, e0 + 1)
    } else {
        (m0, e0)
    }
}

/// A fixed-point value in scientific notation with two decimals.
#[verifier::rlimit(30)]
pub fn sci_str(v: i64) -> (r: String)
    ensures
        r@ == sci_text(v as int),
{
    let a: u128 = if v < 0 {
        (0 - (v as i128)) as u128
    } else {
        v as u128
    };
    proof {
        reveal_strlit("0.00e0");
        reveal_strlit("-");
        reveal_strlit(".");
        reveal_strlit("e");
    }
    if a == 0 {
        let z = String::from_str("0.00e0");
        assert(z@ =~= seq!['0', '.', '0', '0', 'e', '0']);
        return z;
    }
    let digits = decimal(a);
    let k = digits.as_str().unicode_len();
    proof {
        reveal_with_fuel(pow10, 20);
        lemma_decimal_len(a as nat, 19);
        lemma_decimal_nonempty(a as nat);
    }
    let (m, e) = sci_parts_exec(a, k);
    let ds = decimal(m);
    proof {
        lemma_decimal_nonempty(m as nat);
    }
    let n = ds.as_str().unicode_len();
    let mut out = if v < 0 {
        String::from_str("-")
    } else {
        String::new()
    };
    let first = ds.as_str().substring_char(0, 1);
    out.append(first);
    out.append(".");
    out.append(ds.as_str().substring_char(1, n));
    out.append("e");
    if e < 0 {
        out.append("-");
    }
    let mag: u128 = if e < 0 {
        (0 - e) as u128
    } else {
        e as u128
    };
    let exp_digits = decimal(mag);
    out.append(exp_digits.as_str());
    assert(ds@.subrange(0, 1) =~= seq![ds@[0]]);
    assert(out@ =~= sci_text(v as int));
    out
}

/// Values in brackets with three decimals each.
pub fn format_float_slice(values: &Vec<i64>) -> (r: String)
    ensures
        r@ == series_text(values@),
{
    proof {
        reveal_strlit("[");
        reveal_strlit("]");
        reveal_strlit(", ");
    }
    let mut out = String::from_str("[");
    let mut i: usize = 0;
    while i < values.len()
        invariant
            i <= values@.len(),
            out@ == seq!['['] + joined(values@.take(i as int)),
        decreases values@.len() - i,
    {
        proof {
            reveal_strlit(", ");
        }
        if i > 0 {
            out.append(", ");
        }
        let t = fixed_str(values[i] as i128, 3);
        out.append(t.as_str());
        proof {
            let next = values@.take(i as int + 1);
            assert(next.drop_last() =~= values@.take(i as int));
            assert(next.last() == values@[i as int]);
            if i == 0 {
                assert(next.len() == 1);
                assert(next[0] == values@[0]);
            }
            assert(out@ =~= seq!['['] + joined(next));
        }
        i = i + 1;
    }
    out.append("]");
    assert(values@.take(values@.len() as int) =~= values@);
    assert(out@ =~= series_text(values@));
    out
}

/// The header line: current price, EMA20, MACD and RSI7.
pub open spec fn header_text(d: Data) -> Seq<char> {
    "current_price = "@ + fixed_text(d.current_price as int, 2) + ", current_ema20 = "@ + fixed_text(
        d.current_ema20 as int,
        3,
    ) + ", current_macd = "@ + fixed_text(d.current_macd as int, 3) + ", current_rsi (7 period) = "@
        + fixed_text(d.current_rsi7 as int, 3) + "\n\n"@
}

/// The open-interest line, when open interest is known.
pub open spec fn oi_text(oi: Option<OIData>) -> Seq<char> {
    match oi {
        Some(o) => "Open Interest: Latest: "@ + fixed_text(o.latest as int, 2) + " Average: "@ + fixed_text(
            o.average as int,
            2,
        ) + "\n\n"@,
        None => Seq::empty(),
    }
}

/// The funding-rate line, when the funding rate is known.
pub open spec fn funding_text(f: Option<i64>) -> Seq<char> {
    match f {
        Some(r) => "Funding Rate: "@ + sci_text(r as int) + "\n\n"@,
        None => Seq::empty(),
    }
}

/// The five intraday series lines, when there are intraday series.
pub open spec fn intraday_text(d: Option<IntradayData>) -> Seq<char> {
    match d {
        Some(i) => "Mid prices: "@ + series_text(i.mid_prices@) + "\n\n"@ + "EMA indicators (20‑period): "@
            + series_text(i.ema20_values@) + "\n\n"@ + "MACD indicators: "@ + series_text(i.macd_values@)
            + "\n\n"@ + "RSI indicators (7‑Period): "@ + series_text(i.rsi7_values@) + "\n\n"@
            + "RSI indicators (14‑Period): "@ + series_text(i.rsi14_values@) + "\n\n"@,
        None => Seq::empty(),
    }
}

/// The longer-term lines, when there is a longer-term context.
pub open spec fn longer_text(d: Option<LongerTermData>) -> Seq<char> {
    match d {
        Some(l) => "20‑Period EMA: "@ + fixed_text(l.ema20 as int, 3) + " vs. 50‑Period EMA: "@ + fixed_text(
            l.ema50 as int,
            3,
        ) + "\n\n"@ + "3‑Period ATR: "@ + fixed_text(l.atr3 as int, 3) + " vs. 14‑Period ATR: "@
            + fixed_text(l.atr14 as int, 3) + "\n\n"@ + "Current Volume: "@ + fixed_text(
            l.current_volume as int,
            3,
        ) + " vs. Average Volume: "@ + fixed_text(l.average_volume as int, 3) + "\n\n"@
            + "MACD indicators: "@ + series_text(l.macd_values@) + "\n\n"@ + "RSI indicators (14‑Period): "@
            + series_text(l.rsi14_values@) + "\n\n"@,
        None => Seq::empty(),
    }
}

/// The whole report, section after section; sections without data are left out.
pub open spec fn report_text(d: Data) -> Seq<char> {
    header_text(d) + "In addition, here is the latest "@ + d.symbol@
        + " open interest and funding rate for perps:\n\n"@ + oi_text(d.open_interest) + funding_text(
        d.funding_rate,
    ) + "Intraday series (3‑minute intervals, oldest → latest):\n\n"@ + intraday_text(d.intraday_series)
        + "Longer‑term context (4‑hour timeframe):\n\n"@ + longer_text(d.longer_term_context)
}

fn header_str(d: &Data) -> (r: String)
    ensures
        r@ == header_text(*d),
{
    let mut s = String::from_str("current_price = ");
    s.append(fixed_str(d.current_price as i128, 2).as_str());
    s.append(", current_ema20 = ");
    s.append(fixed_str(d.current_ema20 as i128, 3).as_str());
    s.append(", current_macd = ");
    s.append(fixed_str(d.current_macd as i128, 3).as_str());
    s.append(", current_rsi (7 period) = ");
    s.append(fixed_str(d.current_rsi7 as i128, 3).as_str());
    s.append("\n\n");
    s
}

fn oi_str(oi: &Option<OIData>) -> (r: String)
    ensures
        r@ == oi_text(*oi),
{
    match oi {
        Some(o) => {
            let mut s = String::from_str("Open Interest: Latest: ");
            s.append(fixed_str(o.latest as i128, 2).as_str());
            s.append(" Average: ");
            s.append(fixed_str(o.average as i128, 2).as_str());
            s.append("\n\n");
            s
        },
        None => String::new(),
    }
}

fn funding_str(f: &Option<i64>) -> (r: String)
    ensures
        r@ == funding_text(*f),
{
    match f {
        Some(rate) => {
            let mut s = String::from_str("Funding Rate: ");
            s.append(sci_str(*rate).as_str());
            s.append("\n\n");
            s
        },
        None => String::new(),
    }
}

/// Appends `label`, the series of `values` and a blank line to `s`.
fn append_series(s: &mut String, label: &str, values: &Vec<i64>)
    ensures
        final(s)@ == old(s)@ + label@ + series_text(values@) + "\n\n"@,
{
    s.append(label);
    s.append(format_float_slice(values).as_str());
    s.append("\n\n");
}

fn intraday_str(d: &Option<IntradayData>) -> (r: String)
    ensures
        r@ == intraday_text(*d),
{
    match d {
        Some(i) => {
            let mut s = String::new();
            append_series(&mut s, "Mid prices: ", &i.mid_prices);
            append_series(&mut s, "EMA indicators (20‑period): ", &i.ema20_values);
            append_series(&mut s, "MACD indicators: ", &i.macd_values);
            append_series(&mut s, "RSI indicators (7‑Period): ", &i.rsi7_values);
            append_series(&mut s, "RSI indicators (14‑Period): ", &i.rsi14_values);
            assert(s@ =~= intraday_text(*d));
            s
        },
        None => String::new(),
    }
}

fn longer_str(d: &Option<LongerTermData>) -> (r: String)
    ensures
        r@ == longer_text(*d),
{
    match d {
        Some(l) => {
            let mut s = String::from_str("20‑Period EMA: ");
            s.append(fixed_str(l.ema20 as i128, 3).as_str());
            s.append(" vs. 50‑Period EMA: ");
            s.append(fixed_str(l.ema50 as i128, 3).as_str());
            s.append("\n\n");
            s.append("3‑Period ATR: ");
            s.append(fixed_str(l.atr3 as i128, 3).as_str());
            s.append(" vs. 14‑Period ATR: ");
            s.append(fixed_str(l.atr14 as i128, 3).as_str());
            s.append("\n\n");
            s.append("Current Volume: ");
            s.append(fixed_str(l.current_volume as i128, 3).as_str());
            s.append(" vs. Average Volume: ");
            s.append(fixed_str(l.average_volume as i128, 3).as_str());
            s.append("\n\n");
            append_series(&mut s, "MACD indicators: ", &l.macd_values);
            append_series(&mut s, "RSI indicators (14‑Period): ", &l.rsi14_values);
            assert(s@ =~= longer_text(*d));
            s
        },
        None => String::new(),
    }
}

/// Renders a market snapshot as a human-readable report.
pub fn format(data: &Data) -> (r: String)
    ensures
        r@ == report_text(*data),
{
    let mut s = header_str(data);
    s.append("In addition, here is the latest ");
    s.append(data.symbol.as_str());
    s.append(" open interest and funding rate for perps:\n\n");
    s.append(oi_str(&data.open_interest).as_str());
    s.append(funding_str(&data.funding_rate).as_str());
    s.append("Intraday series (3‑minute intervals, oldest → latest):\n\n");
    s.append(intraday_str(&data.intraday_series).as_str());
    s.append("Longer‑term context (4‑hour timeframe):\n\n");
    s.append(longer_str(&data.longer_term_context).as_str());
    assert(s@ =~= report_text(*data));
    s
}

} // verus!
