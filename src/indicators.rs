use vstd::prelude::*;

use crate::types::{klines_wf, Kline, MAX_PRICE, SCALE};

verus! {

/// Division that rounds toward zero, as integer division does on machine integers.
pub open spec fn tdiv(a: int, b: int) -> int {
    if a >= 0 {
        a / b
    } else {
        -((-a) / b)
    }
}

/// Sum of the closes of the first `n` candles.
pub open spec fn close_sum(k: Seq<Kline>, n: nat) -> int
    decreases n,
{
    if n == 0 {
        0
    } else {
        close_sum(k, (n - 1) as nat) + k[n - 1].close
    }
}

/// EMA over the first `len` candles, `len >= period`: the mean of the first
/// `period` closes, then `ema + (price - ema) * 2 / (period + 1)` for each later close.
pub open spec fn ema_at(k: Seq<Kline>, period: nat, len: nat) -> int
    decreases len,
{
    if len <= period {
        close_sum(k, period) / (period as int)
    } else {
        let prev = ema_at(k, period, (len - 1) as nat);
        prev + tdiv((k[len - 1].close - prev) * 2, period as int + 1)
    }
}

/// EMA of the first `len` candles, or 0 when fewer than `period` are given.
pub open spec fn ema_value(k: Seq<Kline>, period: nat, len: nat) -> int {
    if len < period {
        0
    } else {
        ema_at(k, period, len)
    }
}

pub(crate) proof fn lemma_mean_bound(sum: int, n: int, bound: int)
    requires
        n > 0,
        0 <= sum <= n * bound,
    ensures
        0 <= sum / n <= bound,
{
    assert(sum / n <= bound) by (nonlinear_arith)
        requires
            n > 0,
            0 <= sum <= n * bound,
    {
        let q = sum / n;
        assert(q * n <= sum);
        if q > bound {
            assert(q * n >= (bound + 1) * n);
        }
    }
    assert(0 <= sum / n) by (nonlinear_arith)
        requires
            n > 0,
            0 <= sum,
    ;
}

/// One EMA step moves the average toward the price and never past it.
proof fn lemma_ema_step_between(ema: int, price: int, period: int)
    requires
        period >= 1,
    ensures
        ema <= price ==> ema <= ema + tdiv((price - ema) * 2, period + 1) <= price,
        price <= ema ==> price <= ema + tdiv((price - ema) * 2, period + 1) <= ema,
{
    let d = price - ema;
    if d >= 0 {
        let q = (d * 2) / (period + 1);
        assert(0 <= q <= d) by (nonlinear_arith)
            requires
                d >= 0,
                period >= 1,
                q == (d * 2) / (period + 1),
        {
            assert(q * (period + 1) <= d * 2);
            assert(q * (period + 1) >= q * 2 || q < 0);
        }
    } else {
        let e = -d;
        let q = (e * 2) / (period + 1);
        assert(0 <= q <= e) by (nonlinear_arith)
            requires
                e > 0,
                period >= 1,
                q == (e * 2) / (period + 1),
        {
            assert(q * (period + 1) <= e * 2);
            assert(q * (period + 1) >= q * 2 || q < 0);
        }
        assert(tdiv(d * 2, period + 1) == -q);
    }
}

/// Division rounding toward zero of `num` by a positive `den`.
fn div_toward_zero(num: i128, den: i128) -> (r: i128)
    requires
        den > 0,
        num > i128::MIN,
    ensures
        r == tdiv(num as int, den as int),
{
    if num >= 0 {
        num / den
    } else {
        let pos: i128 = -num;
        -(pos / den)
    }
}

/// EMA over the first `len` candles of `klines`.
pub(crate) fn ema_prefix(klines: &[Kline], len: usize, period: usize) -> (r: i64)
    requires
        period > 0,
        len <= klines@.len(),
        klines_wf(klines@),
    ensures
        r == ema_value(klines@, period as nat, len as nat),
        0 <= r <= MAX_PRICE,
{
    if len < period {
        return 0;
    }
    let mut sum: i128 = 0;
    let mut i: usize = 0;
    while i < period
        invariant
            i <= period <= len <= klines@.len(),
            klines_wf(klines@),
            sum == close_sum(klines@, i as nat),
            0 <= sum <= i * MAX_PRICE,
        decreases period - i,
    {
        assert(klines@[i as int].wf());
        sum = sum + klines[i].close as i128;
        i = i + 1;
    }
    proof {
        lemma_mean_bound(sum as int, period as int, MAX_PRICE as int);
    }
    let mut ema: i64 = (sum / (period as i128)) as i64;
    while i < len
        invariant
            period <= i <= len <= klines@.len(),
            period > 0,
            klines_wf(klines@),
            ema == ema_at(klines@, period as nat, i as nat),
            0 <= ema <= MAX_PRICE,
        decreases len - i,
    {
        let price = klines[i].close;
        proof {
            assert(klines@[i as int].wf());
            lemma_ema_step_between(ema as int, price as int, period as int);
        }
        let step = div_toward_zero(((price - ema) as i128) * 2, period as i128 + 1);
        ema = (ema as i128 + step) as i64;
        i = i + 1;
    }
    ema
}

/// Exponential moving average of the closes (0 when fewer than `period` candles).
pub fn calculate_ema(klines: &[Kline], period: usize) -> (r: i64)
    requires
        period > 0,
        klines_wf(klines@),
    ensures
        r == ema_value(klines@, period as nat, klines@.len()),
        klines@.len() < period ==> r == 0,
        0 <= r <= MAX_PRICE,
{
    ema_prefix(klines, klines.len(), period)
}

/// Fixed-point value of 100, the top of the RSI scale.
pub const RSI_MAX: i64 = 100 * SCALE;

/// MACD over the first `len` candles: EMA12 minus EMA26, or 0 with fewer than 26 candles.
pub open spec fn macd_value(k: Seq<Kline>, len: nat) -> int {
    if len < 26 {
        0
    } else {
        ema_value(k, 12, len) - ema_value(k, 26, len)
    }
}

/// Change of the close from candle `i - 1` to candle `i`.
pub open spec fn close_change(k: Seq<Kline>, i: int) -> int {
    k[i].close - k[i - 1].close
}

/// Upward part of the close change at candle `i`.
pub open spec fn gain(k: Seq<Kline>, i: int) -> int {
    if close_change(k, i) > 0 {
        close_change(k, i)
    } else {
        0
    }
}

/// Downward part of the close change at candle `i`, as a non-negative number.
pub open spec fn loss(k: Seq<Kline>, i: int) -> int {
    if close_change(k, i) > 0 {
        0
    } else {
        -close_change(k, i)
    }
}

/// Sum of the gains of candles `1..=n`.
pub open spec fn gain_sum(k: Seq<Kline>, n: nat) -> int
    decreases n,
{
    if n == 0 {
        0
    } else {
        gain_sum(k, (n - 1) as nat) + gain(k, n as int)
    }
}

/// Sum of the losses of candles `1..=n`.
pub open spec fn loss_sum(k: Seq<Kline>, n: nat) -> int
    decreases n,
{
    if n == 0 {
        0
    } else {
        loss_sum(k, (n - 1) as nat) + loss(k, n as int)
    }
}

/// Wilder smoothing: `(avg * (period - 1) + x) / period`.
pub open spec fn wilder(avg: int, x: int, period: int) -> int {
    (avg * (period - 1) + x) / period
}

/// Average gain after the first `len` candles, `len > period`.
pub open spec fn avg_gain_at(k: Seq<Kline>, period: nat, len: nat) -> int
    decreases len,
{
    if len <= period + 1 {
        gain_sum(k, period) / (period as int)
    } else {
        wilder(avg_gain_at(k, period, (len - 1) as nat), gain(k, len - 1), period as int)
    }
}

/// Average loss after the first `len` candles, `len > period`.
pub open spec fn avg_loss_at(k: Seq<Kline>, period: nat, len: nat) -> int
    decreases len,
{
    if len <= period + 1 {
        loss_sum(k, period) / (period as int)
    } else {
        wilder(avg_loss_at(k, period, (len - 1) as nat), loss(k, len - 1), period as int)
    }
}

/// RSI from the average gain and loss: `100 * gain / (gain + loss)`, which is
/// `100 - 100 / (1 + gain / loss)`, and 100 when the average loss is 0.
pub open spec fn rsi_from(avg_gain: int, avg_loss: int) -> int {
    if avg_loss == 0 {
        RSI_MAX as int
    } else {
        (RSI_MAX * avg_gain) / (avg_gain + avg_loss)
    }
}

/// RSI over the first `len` candles, or 0 when `len <= period`.
pub open spec fn rsi_value(k: Seq<Kline>, period: nat, len: nat) -> int {
    if len <= period {
        0
    } else {
        rsi_from(avg_gain_at(k, period, len), avg_loss_at(k, period, len))
    }
}

pub open spec fn abs(x: int) -> int {
    if x < 0 {
        -x
    } else {
        x
    }
}

pub open spec fn max3(a: int, b: int, c: int) -> int {
    let m = if a >= b {
        a
    } else {
        b
    };
    if m >= c {
        m
    } else {
        c
    }
}

/// True range of candle `i >= 1`: the largest of `high - low`,
/// `|high - previous close|` and `|low - previous close|`.
pub open spec fn true_range(k: Seq<Kline>, i: int) -> int {
    max3(
        k[i].high - k[i].low,
        abs(k[i].high - k[i - 1].close),
        abs(k[i].low - k[i - 1].close),
    )
}

/// Sum of the true ranges of candles `1..=n`.
pub open spec fn tr_sum(k: Seq<Kline>, n: nat) -> int
    decreases n,
{
    if n == 0 {
        0
    } else {
        tr_sum(k, (n - 1) as nat) + true_range(k, n as int)
    }
}

/// ATR after the first `len` candles, `len > period`.
pub open spec fn atr_at(k: Seq<Kline>, period: nat, len: nat) -> int
    decreases len,
{
    if len <= period + 1 {
        tr_sum(k, period) / (period as int)
    } else {
        wilder(atr_at(k, period, (len - 1) as nat), true_range(k, len - 1), period as int)
    }
}

/// ATR over the first `len` candles, or 0 when `len <= period`.
pub open spec fn atr_value(k: Seq<Kline>, period: nat, len: nat) -> int {
    if len <= period {
        0
    } else {
        atr_at(k, period, len)
    }
}

proof fn lemma_wilder_bound(avg: int, x: int, period: int)
    requires
        period >= 1,
        0 <= avg <= MAX_PRICE,
        0 <= x <= MAX_PRICE,
    ensures
        0 <= avg * (period - 1) <= MAX_PRICE * (period - 1),
        0 <= wilder(avg, x, period) <= MAX_PRICE,
{
    assert(0 <= avg * (period - 1) <= MAX_PRICE * (period - 1)) by (nonlinear_arith)
        requires
            period >= 1,
            0 <= avg <= MAX_PRICE,
    ;
    lemma_mean_bound(avg * (period - 1) + x, period, MAX_PRICE as int);
}

proof fn lemma_rsi_from_bounds(g: int, l: int)
    requires
        g >= 0,
        l >= 0,
    ensures
        0 <= rsi_from(g, l) <= RSI_MAX,
        rsi_from(g, l) == RSI_MAX <==> l == 0,
{
    if l > 0 {
        let c = RSI_MAX as int;
        let q = (c * g) / (g + l);
        assert(0 <= q < c) by (nonlinear_arith)
            requires
                g >= 0,
                l > 0,
                c > 0,
                q == (c * g) / (g + l),
        {
            assert(q * (g + l) <= c * g);
            assert(c * g < c * (g + l));
            if q >= c {
                assert(q * (g + l) >= c * (g + l));
            }
            assert(c * g >= 0);
        }
    }
}

proof fn lemma_sums_bounds(k: Seq<Kline>, n: nat)
    requires
        klines_wf(k),
        n < k.len(),
    ensures
        0 <= gain_sum(k, n) <= n * MAX_PRICE,
        0 <= loss_sum(k, n) <= n * MAX_PRICE,
        0 <= tr_sum(k, n) <= n * MAX_PRICE,
    decreases n,
{
    if n > 0 {
        lemma_sums_bounds(k, (n - 1) as nat);
        lemma_step_bounds(k, n as int);
    }
}

proof fn lemma_step_bounds(k: Seq<Kline>, i: int)
    requires
        klines_wf(k),
        1 <= i < k.len(),
    ensures
        0 <= gain(k, i) <= MAX_PRICE,
        0 <= loss(k, i) <= MAX_PRICE,
        0 <= true_range(k, i) <= MAX_PRICE,
{
    assert(k[i].wf());
    assert(k[i - 1].wf());
}

proof fn lemma_rsi_avgs_bounds(k: Seq<Kline>, period: nat, len: nat)
    requires
        klines_wf(k),
        period >= 1,
        period < len <= k.len(),
    ensures
        0 <= avg_gain_at(k, period, len) <= MAX_PRICE,
        0 <= avg_loss_at(k, period, len) <= MAX_PRICE,
        0 <= atr_at(k, period, len) <= MAX_PRICE,
    decreases len,
{
    if len <= period + 1 {
        lemma_sums_bounds(k, period);
        lemma_mean_bound(gain_sum(k, period), period as int, MAX_PRICE as int);
        lemma_mean_bound(loss_sum(k, period), period as int, MAX_PRICE as int);
        lemma_mean_bound(tr_sum(k, period), period as int, MAX_PRICE as int);
    } else {
        lemma_rsi_avgs_bounds(k, period, (len - 1) as nat);
        lemma_step_bounds(k, len - 1);
        lemma_wilder_bound(avg_gain_at(k, period, (len - 1) as nat), gain(k, len - 1), period as int);
        lemma_wilder_bound(avg_loss_at(k, period, (len - 1) as nat), loss(k, len - 1), period as int);
        lemma_wilder_bound(atr_at(k, period, (len - 1) as nat), true_range(k, len - 1), period as int);
    }
}

/// With too little history every indicator is 0: EMA with fewer than `period`
/// candles, MACD with fewer than 26, RSI and ATR with at most `period`.
pub proof fn lemma_short_history_is_zero(k: Seq<Kline>, period: nat, len: nat)
    ensures
        len < period ==> ema_value(k, period, len) == 0,
        len < 26 ==> macd_value(k, len) == 0,
        len <= period ==> rsi_value(k, period, len) == 0,
        len <= period ==> atr_value(k, period, len) == 0,
{
}

/// RSI lies within `[0, 100]`, and once defined it is 100 exactly when the
/// average loss over the window is 0.
pub proof fn lemma_rsi_range(k: Seq<Kline>, period: nat, len: nat)
    requires
        klines_wf(k),
        period >= 1,
        len <= k.len(),
    ensures
        0 <= rsi_value(k, period, len) <= RSI_MAX,
        len > period ==> (rsi_value(k, period, len) == RSI_MAX <==> avg_loss_at(k, period, len) == 0),
{
    if len > period {
        lemma_rsi_avgs_bounds(k, period, len);
        lemma_rsi_from_bounds(avg_gain_at(k, period, len), avg_loss_at(k, period, len));
    }
}

/// ATR is never negative.
pub proof fn lemma_atr_nonnegative(k: Seq<Kline>, period: nat, len: nat)
    requires
        klines_wf(k),
        period >= 1,
        len <= k.len(),
    ensures
        atr_value(k, period, len) >= 0,
{
    if len > period {
        lemma_rsi_avgs_bounds(k, period, len);
    }
}

/// The indicators depend on the candles alone: the same candles give the same values.
pub proof fn lemma_indicators_deterministic(k1: Seq<Kline>, k2: Seq<Kline>, period: nat, len: nat)
    requires
        k1 == k2,
    ensures
        ema_value(k1, period, len) == ema_value(k2, period, len),
        macd_value(k1, len) == macd_value(k2, len),
        rsi_value(k1, period, len) == rsi_value(k2, period, len),
        atr_value(k1, period, len) == atr_value(k2, period, len),
{
}

/// MACD over the first `len` candles of `klines`.
pub(crate) fn macd_prefix(klines: &[Kline], len: usize) -> (r: i64)
    requires
        len <= klines@.len(),
        klines_wf(klines@),
    ensures
        r == macd_value(klines@, len as nat),
        -MAX_PRICE <= r <= MAX_PRICE,
{
    if len < 26 {
        return 0;
    }
    let ema12 = ema_prefix(klines, len, 12);
    let ema26 = ema_prefix(klines, len, 26);
    ema12 - ema26
}

/// MACD line: EMA12 minus EMA26 (0 when fewer than 26 candles).
pub fn calculate_macd(klines: &[Kline]) -> (r: i64)
    requires
        klines_wf(klines@),
    ensures
        r == macd_value(klines@, klines@.len()),
        klines@.len() < 26 ==> r == 0,
        -MAX_PRICE <= r <= MAX_PRICE,
{
    macd_prefix(klines, klines.len())
}

/// Gain and loss of candle `i` against the previous close.
fn gain_and_loss(klines: &[Kline], i: usize) -> (r: (i64, i64))
    requires
        1 <= i < klines@.len(),
        klines_wf(klines@),
    ensures
        r.0 == gain(klines@, i as int),
        r.1 == loss(klines@, i as int),
        0 <= r.0 <= MAX_PRICE,
        0 <= r.1 <= MAX_PRICE,
{
    proof {
        lemma_step_bounds(klines@, i as int);
    }
    let change = klines[i].close - klines[i - 1].close;
    if change > 0 {
        (change, 0)
    } else {
        (0, -change)
    }
}

/// One step of Wilder smoothing on values in `[0, MAX_PRICE]`.
fn wilder_step(avg: i64, x: i64, period: usize) -> (r: i64)
    requires
        period >= 1,
        0 <= avg <= MAX_PRICE,
        0 <= x <= MAX_PRICE,
    ensures
        r == wilder(avg as int, x as int, period as int),
        0 <= r <= MAX_PRICE,
{
    proof {
        lemma_wilder_bound(avg as int, x as int, period as int);
    }
    let p = period as i128;
    ((avg as i128 * (p - 1) + x as i128) / p) as i64
}

/// RSI over the first `len` candles of `klines`.
pub(crate) fn rsi_prefix(klines: &[Kline], len: usize, period: usize) -> (r: i64)
    requires
        period > 0,
        len <= klines@.len(),
        klines_wf(klines@),
    ensures
        r == rsi_value(klines@, period as nat, len as nat),
        0 <= r <= RSI_MAX,
        len > period ==> (r == RSI_MAX <==> avg_loss_at(klines@, period as nat, len as nat) == 0),
{
    if len <= period {
        return 0;
    }
    let mut gains: i128 = 0;
    let mut losses: i128 = 0;
    let mut i: usize = 1;
    while i <= period
        invariant
            1 <= i <= period + 1,
            period < len <= klines@.len(),
            klines_wf(klines@),
            gains == gain_sum(klines@, (i - 1) as nat),
            losses == loss_sum(klines@, (i - 1) as nat),
            0 <= gains <= (i - 1) * MAX_PRICE,
            0 <= losses <= (i - 1) * MAX_PRICE,
        decreases period + 1 - i,
    {
        let (g, l) = gain_and_loss(klines, i);
        gains = gains + g as i128;
        losses = losses + l as i128;
        i = i + 1;
    }
    proof {
        lemma_mean_bound(gains as int, period as int, MAX_PRICE as int);
        lemma_mean_bound(losses as int, period as int, MAX_PRICE as int);
    }
    let mut avg_gain: i64 = (gains / period as i128) as i64;
    let mut avg_loss: i64 = (losses / period as i128) as i64;
    while i < len
        invariant
            period + 1 <= i <= len <= klines@.len(),
            period > 0,
            klines_wf(klines@),
            avg_gain == avg_gain_at(klines@, period as nat, i as nat),
            avg_loss == avg_loss_at(klines@, period as nat, i as nat),
            0 <= avg_gain <= MAX_PRICE,
            0 <= avg_loss <= MAX_PRICE,
        decreases len - i,
    {
        let (g, l) = gain_and_loss(klines, i);
        avg_gain = wilder_step(avg_gain, g, period);
        avg_loss = wilder_step(avg_loss, l, period);
        i = i + 1;
    }
    proof {
        lemma_rsi_from_bounds(avg_gain as int, avg_loss as int);
    }
    if avg_loss == 0 {
        return RSI_MAX;
    }
    ((RSI_MAX as i128 * avg_gain as i128) / (avg_gain as i128 + avg_loss as i128)) as i64
}

/// Relative strength index with Wilder smoothing (0 when at most `period` candles).
pub fn calculate_rsi(klines: &[Kline], period: usize) -> (r: i64)
    requires
        period > 0,
        klines_wf(klines@),
    ensures
        r == rsi_value(klines@, period as nat, klines@.len()),
        klines@.len() <= period ==> r == 0,
        0 <= r <= RSI_MAX,
        klines@.len() > period ==> (r == RSI_MAX <==> avg_loss_at(klines@, period as nat, klines@.len()) == 0),
{
    rsi_prefix(klines, klines.len(), period)
}

/// True range of candle `i >= 1`.
fn true_range_at(klines: &[Kline], i: usize) -> (r: i64)
    requires
        1 <= i < klines@.len(),
        klines_wf(klines@),
    ensures
        r == true_range(klines@, i as int),
        0 <= r <= MAX_PRICE,
{
    proof {
        lemma_step_bounds(klines@, i as int);
    }
    let high = klines[i].high;
    let low = klines[i].low;
    let prev_close = klines[i - 1].close;
    let tr1 = high - low;
    let d2 = high - prev_close;
    let tr2 = if d2 < 0 {
        -d2
    } else {
        d2
    };
    let d3 = low - prev_close;
    let tr3 = if d3 < 0 {
        -d3
    } else {
        d3
    };
    let m = if tr1 >= tr2 {
        tr1
    } else {
        tr2
    };
    if m >= tr3 {
        m
    } else {
        tr3
    }
}

/// Average true range with Wilder smoothing (0 when at most `period` candles).
pub fn calculate_atr(klines: &[Kline], period: usize) -> (r: i64)
    requires
        period > 0,
        klines_wf(klines@),
    ensures
        r == atr_value(klines@, period as nat, klines@.len()),
        klines@.len() <= period ==> r == 0,
        0 <= r <= MAX_PRICE,
{
    let len = klines.len();
    if len <= period {
        return 0;
    }
    let mut sum: i128 = 0;
    let mut i: usize = 1;
    while i <= period
        invariant
            1 <= i <= period + 1,
            period < len == klines@.len(),
            klines_wf(klines@),
            sum == tr_sum(klines@, (i - 1) as nat),
            0 <= sum <= (i - 1) * MAX_PRICE,
        decreases period + 1 - i,
    {
        let tr = true_range_at(klines, i);
        sum = sum + tr as i128;
        i = i + 1;
    }
    proof {
        lemma_mean_bound(sum as int, period as int, MAX_PRICE as int);
    }
    let mut atr: i64 = (sum / period as i128) as i64;
    while i < len
        invariant
            period + 1 <= i <= len == klines@.len(),
            period > 0,
            klines_wf(klines@),
            atr == atr_at(klines@, period as nat, i as nat),
            0 <= atr <= MAX_PRICE,
        decreases len - i,
    {
        let tr = true_range_at(klines, i);
        atr = wilder_step(atr, tr, period);
        i = i + 1;
    }
    atr
}

} // verus!
