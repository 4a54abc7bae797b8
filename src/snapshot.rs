use vstd::prelude::*;

use crate::indicators::{
    atr_value, calculate_atr, calculate_ema, calculate_macd, calculate_rsi, ema_prefix,
    ema_value, macd_prefix, macd_value, rsi_prefix, rsi_value,
};
use crate::types::{
    klines_wf, Data, IntradayData, Kline, LongerTermData, OIData, MAX_PRICE, MAX_VOLUME, SCALE,
};

verus! {

/// Number of trailing candles covered by the indicator series.
pub const SERIES_WINDOW: usize = 10;

/// Index of the first candle of the trailing window of a feed of `n` candles.
pub open spec fn window_start(n: nat) -> nat {
    if n >= SERIES_WINDOW {
        (n - SERIES_WINDOW) as nat
    } else {
        0
    }
}

pub open spec fn max_nat(a: nat, b: nat) -> nat {
    if a >= b {
        a
    } else {
        b
    }
}

/// Number of prefix lengths in `lo..=hi`.
pub open spec fn count_from(lo: nat, hi: nat) -> nat {
    if hi >= lo {
        (hi - lo + 1) as nat
    } else {
        0
    }
}

/// `s` holds `f(len)` for each prefix length `len` in `lo..=hi`, in order.
pub open spec fn is_series(s: Seq<i64>, lo: nat, hi: nat, f: spec_fn(nat) -> int) -> bool {
    &&& s.len() == count_from(lo, hi)
    &&& forall|j: int| 0 <= j < s.len() ==> s[j] == f((lo + j) as nat)
}

/// Close of the last candle of the prefix of length `len`.
pub open spec fn last_close_fn(k: Seq<Kline>) -> spec_fn(nat) -> int {
    |len: nat| k[len - 1].close as int
}

pub open spec fn ema_fn(k: Seq<Kline>, period: nat) -> spec_fn(nat) -> int {
    |len: nat| ema_value(k, period, len)
}

pub open spec fn macd_fn(k: Seq<Kline>) -> spec_fn(nat) -> int {
    |len: nat| macd_value(k, len)
}

pub open spec fn rsi_fn(k: Seq<Kline>, period: nat) -> spec_fn(nat) -> int {
    |len: nat| rsi_value(k, period, len)
}

/// The intraday series after the prefixes of lengths `start + 1 ..= hi`: the close,
/// EMA20 (from 20 candles), MACD (from 26), RSI7 (from 8) and RSI14 (from 15) of each.
pub open spec fn intraday_upto(k: Seq<Kline>, start: nat, hi: nat, d: IntradayData) -> bool {
    &&& is_series(d.mid_prices@, start + 1, hi, last_close_fn(k))
    &&& is_series(d.ema20_values@, max_nat(start + 1, 20), hi, ema_fn(k, 20))
    &&& is_series(d.macd_values@, max_nat(start + 1, 26), hi, macd_fn(k))
    &&& is_series(d.rsi7_values@, max_nat(start + 1, 8), hi, rsi_fn(k, 7))
    &&& is_series(d.rsi14_values@, max_nat(start + 1, 15), hi, rsi_fn(k, 14))
}

/// The intraday series of a whole feed: over every prefix that ends in the trailing window.
pub open spec fn intraday_spec(k: Seq<Kline>, d: IntradayData) -> bool {
    intraday_upto(k, window_start(k.len()), k.len(), d)
}

proof fn lemma_series_push(s: Seq<i64>, lo: nat, hi: nat, f: spec_fn(nat) -> int, v: i64)
    requires
        is_series(s, lo, hi, f),
        hi + 1 >= lo,
        v == f(hi + 1),
    ensures
        is_series(s.push(v), lo, hi + 1, f),
{
    let t = s.push(v);
    assert forall|j: int| 0 <= j < t.len() implies t[j] == f((lo + j) as nat) by {
        if j < s.len() {
            assert(t[j] == s[j]);
        } else {
            assert(j == s.len());
            assert((lo + j) as nat == hi + 1);
        }
    }
}

/// Indicators over every growing prefix that ends within the last `SERIES_WINDOW` candles.
pub fn calculate_intraday_series(klines: &[Kline]) -> (r: IntradayData)
    requires
        klines_wf(klines@),
    ensures
        intraday_spec(klines@, r),
{
    let n = klines.len();
    let start: usize = if n >= SERIES_WINDOW {
        n - SERIES_WINDOW
    } else {
        0
    };
    let mut data = IntradayData {
        mid_prices: Vec::new(),
        ema20_values: Vec::new(),
        macd_values: Vec::new(),
        rsi7_values: Vec::new(),
        rsi14_values: Vec::new(),
    };
    let mut len: usize = start;
    while len < n
        invariant
            start == window_start(n as nat),
            start <= len <= n == klines@.len(),
            klines_wf(klines@),
            intraday_upto(klines@, start as nat, len as nat, data),
        decreases n - len,
    {
        let ghost k = klines@;
        let ghost old_data = data;
        let close = klines[len].close;
        data.mid_prices.push(close);
        proof {
            lemma_series_push(old_data.mid_prices@, (start + 1) as nat, len as nat, last_close_fn(k), close);
        }
        if len + 1 >= 20 {
            let v = ema_prefix(klines, len + 1, 20);
            data.ema20_values.push(v);
            proof {
                lemma_series_push(old_data.ema20_values@, max_nat((start + 1) as nat, 20), len as nat, ema_fn(k, 20), v);
            }
        }
        if len + 1 >= 26 {
            let v = macd_prefix(klines, len + 1);
            data.macd_values.push(v);
            proof {
                lemma_series_push(old_data.macd_values@, max_nat((start + 1) as nat, 26), len as nat, macd_fn(k), v);
            }
        }
        if len + 1 > 7 {
            let v = rsi_prefix(klines, len + 1, 7);
            data.rsi7_values.push(v);
            proof {
                lemma_series_push(old_data.rsi7_values@, max_nat((start + 1) as nat, 8), len as nat, rsi_fn(k, 7), v);
            }
        }
        if len + 1 > 14 {
            let v = rsi_prefix(klines, len + 1, 14);
            data.rsi14_values.push(v);
            proof {
                lemma_series_push(old_data.rsi14_values@, max_nat((start + 1) as nat, 15), len as nat, rsi_fn(k, 14), v);
            }
        }
        len = len + 1;
    }
    data
}

/// Sum of the volumes of the first `n` candles.
pub open spec fn volume_sum(k: Seq<Kline>, n: nat) -> int
    decreases n,
{
    if n == 0 {
        0
    } else {
        volume_sum(k, (n - 1) as nat) + k[n - 1].volume
    }
}

/// The longer-term context of a feed: EMA20, EMA50, ATR3, ATR14, last and mean
/// volume over all of it, and MACD (from 26 candles) and RSI14 (from 15) over
/// every prefix that ends in the trailing window. All zero and empty for no candles.
pub open spec fn longer_term_spec(k: Seq<Kline>, d: LongerTermData) -> bool {
    let n = k.len();
    let start = window_start(n);
    &&& d.ema20 == ema_value(k, 20, n)
    &&& d.ema50 == ema_value(k, 50, n)
    &&& d.atr3 == atr_value(k, 3, n)
    &&& d.atr14 == atr_value(k, 14, n)
    &&& d.current_volume == (if n == 0 { 0 } else { k[n - 1].volume as int })
    &&& d.average_volume == (if n == 0 { 0 } else { volume_sum(k, n) / (n as int) })
    &&& is_series(d.macd_values@, max_nat(start + 1, 26), n, macd_fn(k))
    &&& is_series(d.rsi14_values@, max_nat(start + 1, 15), n, rsi_fn(k, 14))
}

/// Indicators over the whole long-interval feed, plus trailing MACD and RSI14 series.
pub fn calculate_longer_term_data(klines: &[Kline]) -> (r: LongerTermData)
    requires
        klines_wf(klines@),
    ensures
        longer_term_spec(klines@, r),
{
    let n = klines.len();
    let mut data = LongerTermData {
        ema20: 0,
        ema50: 0,
        atr3: 0,
        atr14: 0,
        current_volume: 0,
        average_volume: 0,
        macd_values: Vec::new(),
        rsi14_values: Vec::new(),
    };
    if n == 0 {
        return data;
    }
    data.ema20 = calculate_ema(klines, 20);
    data.ema50 = calculate_ema(klines, 50);
    data.atr3 = calculate_atr(klines, 3);
    data.atr14 = calculate_atr(klines, 14);
    data.current_volume = klines[n - 1].volume;
    let mut volume_total: i128 = 0;
    let mut i: usize = 0;
    while i < n
        invariant
            i <= n == klines@.len(),
            klines_wf(klines@),
            volume_total == volume_sum(klines@, i as nat),
            0 <= volume_total <= i * MAX_VOLUME,
        decreases n - i,
    {
        assert(klines@[i as int].wf());
        volume_total = volume_total + klines[i].volume as i128;
        i = i + 1;
    }
    proof {
        crate::indicators::lemma_mean_bound(volume_total as int, n as int, MAX_VOLUME as int);
    }
    data.average_volume = (volume_total / n as i128) as i64;
    let start: usize = if n >= SERIES_WINDOW {
        n - SERIES_WINDOW
    } else {
        0
    };
    let mut len: usize = start;
    while len < n
        invariant
            start == window_start(n as nat),
            start <= len <= n == klines@.len(),
            klines_wf(klines@),
            is_series(data.macd_values@, max_nat((start + 1) as nat, 26), len as nat, macd_fn(klines@)),
            is_series(data.rsi14_values@, max_nat((start + 1) as nat, 15), len as nat, rsi_fn(klines@, 14)),
            data.ema20 == ema_value(klines@, 20, n as nat),
            data.ema50 == ema_value(klines@, 50, n as nat),
            data.atr3 == atr_value(klines@, 3, n as nat),
            data.atr14 == atr_value(klines@, 14, n as nat),
            data.current_volume == klines@[n - 1].volume,
            data.average_volume == volume_sum(klines@, n as nat) / (n as int),
        decreases n - len,
    {
        let ghost k = klines@;
        let ghost old_data = data;
        if len + 1 >= 26 {
            let v = macd_prefix(klines, len + 1);
            data.macd_values.push(v);
            proof {
                lemma_series_push(old_data.macd_values@, max_nat((start + 1) as nat, 26), len as nat, macd_fn(k), v);
            }
        }
        if len + 1 > 14 {
            let v = rsi_prefix(klines, len + 1, 14);
            data.rsi14_values.push(v);
            proof {
                lemma_series_push(old_data.rsi14_values@, max_nat((start + 1) as nat, 15), len as nat, rsi_fn(k, 14), v);
            }
        }
        len = len + 1;
    }
    data
}

/// Change from `ago` to `current` in percent, fixed-point, rounded toward zero;
/// 0 when the reference price is not positive.
pub open spec fn percent_change(current: int, ago: int) -> int {
    if ago > 0 {
        crate::indicators::tdiv((current - ago) * 100 * SCALE, ago)
    } else {
        0
    }
}

/// Percent change of the last close against the close `back` candles before it
/// (0 when the feed has no such candle).
pub open spec fn change_over(k: Seq<Kline>, current: int, back: nat) -> int {
    if k.len() >= back + 1 && k.len() > 0 {
        percent_change(current, k[k.len() - 1 - back].close as int)
    } else {
        0
    }
}

/// Percent change of `current` against a reference close.
fn percent_change_exec(current: i64, ago: i64) -> (r: i128)
    requires
        0 <= current <= MAX_PRICE,
        0 <= ago <= MAX_PRICE,
    ensures
        r == percent_change(current as int, ago as int),
{
    if ago > 0 {
        let diff: i128 = current as i128 - ago as i128;
        assert(-MAX_PRICE <= diff <= MAX_PRICE);
        let num: i128 = diff * 10_000_000_000;
        assert(num == (current - ago) * 100 * SCALE);
        if num >= 0 {
            num / ago as i128
        } else {
            -((-num) / ago as i128)
        }
    } else {
        0
    }
}

/// Percent change of `current` against the close `back` candles before the last one.
pub fn change_against(klines: &[Kline], current: i64, back: usize) -> (r: i128)
    requires
        klines_wf(klines@),
        0 <= current <= MAX_PRICE,
    ensures
        r == change_over(klines@, current as int, back as nat),
{
    let n = klines.len();
    if n > back && n > 0 {
        assert(klines@[n - 1 - back].wf());
        percent_change_exec(current, klines[n - 1 - back].close)
    } else {
        0
    }
}

/// Open interest with its average taken as `latest * 0.999` (rounded toward zero).
pub fn oi_from_latest(latest: i64) -> (r: OIData)
    ensures
        r.latest == latest,
        r.average == crate::indicators::tdiv(latest * 999, 1000),
{
    let num: i128 = latest as i128 * 999;
    let avg: i128 = if num >= 0 {
        num / 1000
    } else {
        -((-num) / 1000)
    };
    OIData { latest, average: avg as i64 }
}

/// Quote asset that every normalized symbol ends with.
pub open spec fn quote_suffix() -> Seq<char> {
    seq!['U', 'S', 'D', 'T']
}

/// `s` ends with the quote asset.
pub open spec fn has_quote_suffix(s: Seq<char>) -> bool {
    s.len() >= 4 && s.subrange(s.len() - 4, s.len() as int) == quote_suffix()
}

/// An upper-case symbol with the quote asset appended unless already present.
pub open spec fn with_quote(upper: Seq<char>) -> Seq<char> {
    if has_quote_suffix(upper) {
        upper
    } else {
        upper + quote_suffix()
    }
}

/// What `str::to_uppercase` returns for the given characters.
pub uninterp spec fn upper_of(s: Seq<char>) -> Seq<char>;

/// Relies on `str::to_uppercase`: the Unicode upper-case mapping of the text,
/// which depends on the characters alone.
#[verifier::external_body]
fn to_upper(s: &str) -> (r: String)
    ensures
        r@ == upper_of(s@),
{
    s.to_uppercase()
}

/// Completes an upper-case symbol with the quote asset when it lacks it.
pub fn normalize_upper(upper: &str) -> (r: String)
    ensures
        r@ == with_quote(upper@),
{
    let n = upper.unicode_len();
    let suffix = "USDT";
    proof {
        reveal_strlit("USDT");
        assert(suffix@ =~= quote_suffix());
    }
    if n >= 4 && upper.get_char(n - 4) == 'U' && upper.get_char(n - 3) == 'S'
        && upper.get_char(n - 2) == 'D' && upper.get_char(n - 1) == 'T' {
        assert(upper@.subrange(n - 4, n as int) =~= quote_suffix());
        return String::from_str(upper);
    }
    assert(!has_quote_suffix(upper@)) by {
        if has_quote_suffix(upper@) {
            assert(upper@.subrange(n - 4, n as int)[0] == 'U');
            assert(upper@.subrange(n - 4, n as int)[1] == 'S');
            assert(upper@.subrange(n - 4, n as int)[2] == 'D');
            assert(upper@.subrange(n - 4, n as int)[3] == 'T');
        }
    }
    let mut r = String::from_str(upper);
    r.append(suffix);
    r
}

/// Normalizes a symbol to its upper-case pair against the quote asset.
pub fn normalize(symbol: &str) -> (r: String)
    ensures
        r@ == with_quote(upper_of(symbol@)),
{
    let upper = to_upper(symbol);
    normalize_upper(upper.as_str())
}

/// Close of the last candle, or 0 for an empty feed.
pub open spec fn last_close(k: Seq<Kline>) -> int {
    if k.len() == 0 {
        0
    } else {
        k[k.len() - 1].close as int
    }
}

/// Failure of a market snapshot.
#[derive(Clone, Debug)]
pub enum MarketError {
    /// The exchange could not be reached or answered with an error.
    RequestError(String),
    /// A number in a response could not be read.
    ParseFloatError(String),
    /// A response was not the document expected.
    ParseJsonError(String),
    /// A required series does not hold enough data.
    InsufficientData(String),
}

/// The snapshot assembled from its four series.
pub open spec fn snapshot_spec(
    symbol: Seq<char>,
    short: Seq<Kline>,
    long: Seq<Kline>,
    open_interest: Option<OIData>,
    funding_rate: Option<i64>,
    d: Data,
) -> bool {
    let price = last_close(short);
    &&& d.symbol@ == symbol
    &&& d.current_price == price
    &&& d.price_change_1h == change_over(short, price, 20)
    &&& d.price_change_4h == change_over(long, price, 1)
    &&& d.current_ema20 == ema_value(short, 20, short.len())
    &&& d.current_macd == macd_value(short, short.len())
    &&& d.current_rsi7 == rsi_value(short, 7, short.len())
    &&& d.open_interest == open_interest
    &&& d.funding_rate == funding_rate
    &&& d.intraday_series matches Some(i) && intraday_spec(short, i)
    &&& d.longer_term_context matches Some(l) && longer_term_spec(long, l)
}

/// Builds the snapshot of a normalized symbol from its short-interval and
/// long-interval candles, open interest and funding rate. Fails with
/// `InsufficientData` exactly when the latest short-interval close is missing or 0.
pub fn assemble_data(
    symbol: String,
    klines_short: &[Kline],
    klines_long: &[Kline],
    open_interest: Option<OIData>,
    funding_rate: Option<i64>,
) -> (r: Result<Data, MarketError>)
    requires
        klines_wf(klines_short@),
        klines_wf(klines_long@),
    ensures
        r is Err <==> last_close(klines_short@) == 0,
        r matches Err(e) ==> e is InsufficientData,
        r matches Ok(d) ==> snapshot_spec(symbol@, klines_short@, klines_long@, open_interest, funding_rate, d),
{
    let n = klines_short.len();
    let current_price: i64 = if n == 0 {
        0
    } else {
        klines_short[n - 1].close
    };
    if current_price == 0 {
        return Err(MarketError::InsufficientData(String::from_str("Could not get current price from 3m klines.")));
    }
    assert(klines_short@[n - 1].wf());
    let current_ema20 = calculate_ema(klines_short, 20);
    let current_macd = calculate_macd(klines_short);
    let current_rsi7 = calculate_rsi(klines_short, 7);
    let price_change_1h = change_against(klines_short, current_price, 20);
    let price_change_4h = change_against(klines_long, current_price, 1);
    let intraday = calculate_intraday_series(klines_short);
    let longer = calculate_longer_term_data(klines_long);
    Ok(Data {
        symbol,
        current_price,
        price_change_1h,
        price_change_4h,
        current_ema20,
        current_macd,
        current_rsi7,
        open_interest,
        funding_rate,
        intraday_series: Some(intraday),
        longer_term_context: Some(longer),
    })
}

} // verus!
