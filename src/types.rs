use vstd::prelude::*;

verus! {

/// Number of fixed-point units in one whole unit (eight decimal places).
pub const SCALE: i64 = 100_000_000;

/// Largest price a candle may carry, in fixed-point units.
pub const MAX_PRICE: i64 = 1_000_000_000_000_000;

/// Largest volume a candle may carry, in fixed-point units.
pub const MAX_VOLUME: i64 = 1_000_000_000_000_000_000;

/// One OHLCV observation. Prices and volumes are fixed-point (`SCALE`),
/// times are epoch milliseconds.
#[derive(Clone, Copy, Debug, PartialEq, Eq)]
pub struct Kline {
    pub open_time: i64,
    pub open: i64,
    pub high: i64,
    pub low: i64,
    pub close: i64,
    pub volume: i64,
    pub close_time: i64,
    pub quote_volume: i64,
    pub trades: i64,
    pub taker_buy_base_volume: i64,
    pub taker_buy_quote_volume: i64,
}

impl Kline {
    /// Prices lie in `[0, MAX_PRICE]` and the volume in `[0, MAX_VOLUME]`.
    pub open spec fn wf(&self) -> bool {
        &&& 0 <= self.open <= MAX_PRICE
        &&& 0 <= self.high <= MAX_PRICE
        &&& 0 <= self.low <= MAX_PRICE
        &&& 0 <= self.close <= MAX_PRICE
        &&& 0 <= self.volume <= MAX_VOLUME
    }
}

/// Every candle of the series is well formed.
pub open spec fn klines_wf(k: Seq<Kline>) -> bool {
    forall|i: int| 0 <= i < k.len() ==> (#[trigger] k[i]).wf()
}

} // verus!

verus! {

/// Open interest: the latest value and its approximate average.
#[derive(Clone, Copy, Debug, PartialEq, Eq)]
pub struct OIData {
    pub latest: i64,
    pub average: i64,
}

/// Indicator series over the trailing window of the short-interval feed.
#[derive(Clone, Debug, Default)]
pub struct IntradayData {
    pub mid_prices: Vec<i64>,
    pub ema20_values: Vec<i64>,
    pub macd_values: Vec<i64>,
    pub rsi7_values: Vec<i64>,
    pub rsi14_values: Vec<i64>,
}

/// Indicators over the whole long-interval feed, with trailing series.
#[derive(Clone, Debug, Default)]
pub struct LongerTermData {
    pub ema20: i64,
    pub ema50: i64,
    pub atr3: i64,
    pub atr14: i64,
    pub current_volume: i64,
    pub average_volume: i64,
    pub macd_values: Vec<i64>,
    pub rsi14_values: Vec<i64>,
}

/// Market snapshot of one symbol. Price changes are percentages, fixed-point.
#[derive(Clone, Debug)]
pub struct Data {
    pub symbol: String,
    pub current_price: i64,
    pub price_change_1h: i128,
    pub price_change_4h: i128,
    pub current_ema20: i64,
    pub current_macd: i64,
    pub current_rsi7: i64,
    pub open_interest: Option<OIData>,
    pub funding_rate: Option<i64>,
    pub intraday_series: Option<IntradayData>,
    pub longer_term_context: Option<LongerTermData>,
}

/// Exchange metadata: the symbols it lists.
#[derive(Clone, Debug)]
pub struct ExchangeInfo {
    pub symbols: Vec<SymbolInfo>,
}

/// Metadata of one listed symbol.
#[derive(Clone, Debug)]
pub struct SymbolInfo {
    pub symbol: String,
    pub status: String,
    pub base_asset: String,
    pub quote_asset: String,
    pub contract_type: String,
    pub price_precision: i32,
    pub quantity_precision: i32,
}

/// Latest price of a symbol, as the exchange writes it.
#[derive(Clone, Debug)]
pub struct PriceTicker {
    pub symbol: String,
    pub price: String,
}

/// 24-hour ticker of a symbol, as the exchange writes it.
#[derive(Clone, Debug)]
pub struct Ticker24hr {
    pub symbol: String,
    pub price_change: String,
    pub price_change_percent: String,
    pub volume: String,
    pub quote_volume: String,
}

} // verus!

verus! {

/// Features of a symbol at one instant. Figures are fixed-point, the timestamp
/// is in epoch milliseconds.
#[derive(Clone, Debug)]
pub struct SymbolFeatures {
    pub symbol: String,
    pub timestamp: i64,
    pub price: i64,
    pub price_change_15min: i64,
    pub price_change_1h: i64,
    pub price_change_4h: i64,
    pub volume: i64,
    pub volume_ratio_5: i64,
    pub volume_ratio_20: i64,
    pub volume_trend: i64,
    pub rsi_14: i64,
    pub sma_5: i64,
    pub sma_10: i64,
    pub sma_20: i64,
    pub high_low_ratio: i64,
    pub volatility_20: i64,
    pub position_in_range: i64,
}

/// An alert raised on a symbol. Figures are fixed-point, the timestamp is in
/// epoch milliseconds.
#[derive(Clone, Debug)]
pub struct Alert {
    pub alert_type: String,
    pub symbol: String,
    pub value: i64,
    pub threshold: i64,
    pub message: String,
    pub timestamp: i64,
}

/// Thresholds that raise alerts, fixed-point.
#[derive(Clone, Copy, Debug, PartialEq, Eq)]
pub struct AlertThresholds {
    pub volume_spike: i64,
    pub price_change_15min: i64,
    pub volume_trend: i64,
    pub rsi_overbought: i64,
    pub rsi_oversold: i64,
}

/// When symbols stop being watched. Durations are in seconds; the score is fixed-point.
#[derive(Clone, Copy, Debug, PartialEq, Eq)]
pub struct CleanupConfig {
    pub inactive_timeout: u64,
    pub min_score_threshold: i64,
    pub no_alert_timeout: u64,
    pub check_interval: u64,
}

/// Settings of the market monitor, built once at start and passed to what needs them.
#[derive(Clone, Copy, Debug, PartialEq, Eq)]
pub struct Config {
    pub alert_thresholds: AlertThresholds,
    /// Seconds between updates.
    pub update_interval: u64,
    pub cleanup_config: CleanupConfig,
}

impl Config {
    /// The standard settings: alerts on a 3x volume spike, a 5 % move in 15
    /// minutes, a 2x volume trend and RSI beyond 70 / 30; symbols dropped after
    /// 30 minutes inactive, a score under 15 or 20 minutes without alert,
    /// checked every 5 minutes; updates every minute.
    pub fn standard() -> (r: Config)
        ensures
            r.alert_thresholds.volume_spike == 3 * SCALE,
            r.alert_thresholds.price_change_15min == 5 * SCALE / 100,
            r.alert_thresholds.volume_trend == 2 * SCALE,
            r.alert_thresholds.rsi_overbought == 70 * SCALE,
            r.alert_thresholds.rsi_oversold == 30 * SCALE,
            r.cleanup_config.inactive_timeout == 30 * 60,
            r.cleanup_config.min_score_threshold == 15 * SCALE,
            r.cleanup_config.no_alert_timeout == 20 * 60,
            r.cleanup_config.check_interval == 5 * 60,
            r.update_interval == 60,
    {
        Config {
            alert_thresholds: AlertThresholds {
                volume_spike: 3 * SCALE,
                price_change_15min: 5 * SCALE / 100,
                volume_trend: 2 * SCALE,
                rsi_overbought: 70 * SCALE,
                rsi_oversold: 30 * SCALE,
            },
            cleanup_config: CleanupConfig {
                inactive_timeout: 30 * 60,
                min_score_threshold: 15 * SCALE,
                no_alert_timeout: 20 * 60,
                check_interval: 5 * 60,
            },
            update_interval: 60,
        }
    }
}

} // verus!
