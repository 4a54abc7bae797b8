use trading_core::indicators::{calculate_atr, calculate_ema, calculate_macd, calculate_rsi, RSI_MAX};
use trading_core::snapshot::{calculate_intraday_series, calculate_longer_term_data};
use trading_core::types::{Kline, SCALE};

fn candle(close: i64) -> Kline {
    Kline {
        open_time: 0,
        open: close,
        high: close,
        low: close,
        close,
        volume: SCALE,
        close_time: 0,
        quote_volume: 0,
        trades: 0,
        taker_buy_base_volume: 0,
        taker_buy_quote_volume: 0,
    }
}

fn candles(closes: &[i64]) -> Vec<Kline> {
    closes.iter().map(|c| candle(c * SCALE)).collect()
}

#[test]
fn ema_numeric_example() {
    let k = candles(&[1, 2, 3, 4, 5]);
    assert_eq!(calculate_ema(&k, 3), 4 * SCALE);
}

#[test]
fn ema_seed_only_is_simple_average() {
    let k = candles(&[1, 2, 3]);
    assert_eq!(calculate_ema(&k, 3), 2 * SCALE);
}

#[test]
fn ema_short_history_is_zero() {
    let k = candles(&[1, 2]);
    assert_eq!(calculate_ema(&k, 3), 0);
    assert_eq!(calculate_ema(&[], 1), 0);
}

#[test]
fn macd_needs_26_candles() {
    let k = candles(&[5; 25]);
    assert_eq!(calculate_macd(&k), 0);
    let k = candles(&[5; 26]);
    assert_eq!(calculate_macd(&k), 0);
}

#[test]
fn macd_of_rising_series_is_positive() {
    let closes: Vec<i64> = (1..=30).collect();
    let k = candles(&closes);
    assert!(calculate_macd(&k) > 0);
}

#[test]
fn rsi_short_history_is_zero() {
    let k = candles(&[1, 2, 3]);
    assert_eq!(calculate_rsi(&k, 3), 0);
}

#[test]
fn rsi_without_losses_is_100() {
    let k = candles(&[1, 2, 3, 4]);
    assert_eq!(calculate_rsi(&k, 3), RSI_MAX);
    let flat = candles(&[7, 7, 7, 7]);
    assert_eq!(calculate_rsi(&flat, 3), RSI_MAX);
}

#[test]
fn rsi_balanced_moves_is_50() {
    let k = candles(&[1, 2, 1]);
    assert_eq!(calculate_rsi(&k, 2), 50 * SCALE);
}

#[test]
fn rsi_with_wilder_smoothing() {
    // a gain of 1 and a loss of 1 over the first two deltas, then a loss of 1:
    // avg_gain = (0.5 * 1 + 0) / 2 = 0.25, avg_loss = (0.5 * 1 + 1) / 2 = 0.75
    let k = candles(&[1, 2, 1, 0]);
    assert_eq!(calculate_rsi(&k, 2), 25 * SCALE);
}

#[test]
fn rsi_only_losses_is_0() {
    let k = candles(&[4, 3, 2, 1]);
    assert_eq!(calculate_rsi(&k, 3), 0);
}

#[test]
fn atr_short_history_is_zero() {
    let k = candles(&[1, 2, 3]);
    assert_eq!(calculate_atr(&k, 3), 0);
}

#[test]
fn atr_uses_true_range() {
    let mut k = candles(&[10, 10, 10]);
    k[1].high = 12 * SCALE;
    k[1].low = 9 * SCALE;
    k[2].high = 10 * SCALE;
    k[2].low = 6 * SCALE;
    // true ranges: 3 and 4; seed over period 1 is 3, then (3 * 0 + 4) / 1 = 4
    assert_eq!(calculate_atr(&k, 1), 4 * SCALE);
    // seed over period 2 is (3 + 4) / 2
    assert_eq!(calculate_atr(&k, 2), 35 * SCALE / 10);
}

#[test]
fn atr_gap_counts_previous_close() {
    let mut k = candles(&[10, 20]);
    k[1].high = 21 * SCALE;
    k[1].low = 19 * SCALE;
    assert_eq!(calculate_atr(&k, 1), 11 * SCALE);
}

#[test]
fn indicators_repeat_identically() {
    let closes: Vec<i64> = (0..40).map(|i| 100 + (i * 7) % 13).collect();
    let k = candles(&closes);
    assert_eq!(calculate_ema(&k, 20), calculate_ema(&k, 20));
    assert_eq!(calculate_macd(&k), calculate_macd(&k));
    assert_eq!(calculate_rsi(&k, 14), calculate_rsi(&k, 14));
    assert_eq!(calculate_atr(&k, 14), calculate_atr(&k, 14));
    let r = calculate_rsi(&k, 7);
    assert!(r >= 0 && r <= RSI_MAX);
    assert!(calculate_atr(&k, 3) >= 0);
}

#[test]
fn intraday_series_lengths() {
    let closes: Vec<i64> = (1..=30).collect();
    let k = candles(&closes);
    let d = calculate_intraday_series(&k);
    assert_eq!(d.mid_prices.len(), 10);
    assert_eq!(d.mid_prices[0], 21 * SCALE);
    assert_eq!(d.mid_prices[9], 30 * SCALE);
    assert_eq!(d.ema20_values.len(), 10);
    assert_eq!(d.macd_values.len(), 5);
    assert_eq!(d.rsi7_values.len(), 10);
    assert_eq!(d.rsi14_values.len(), 10);
    assert_eq!(d.ema20_values[9], calculate_ema(&k, 20));
    assert_eq!(d.macd_values[4], calculate_macd(&k));
}

#[test]
fn intraday_series_short_feed() {
    let k = candles(&[1, 2, 3]);
    let d = calculate_intraday_series(&k);
    assert_eq!(d.mid_prices.len(), 3);
    assert!(d.ema20_values.is_empty());
    assert!(d.rsi7_values.is_empty());
    let empty = calculate_intraday_series(&[]);
    assert!(empty.mid_prices.is_empty());
}

#[test]
fn longer_term_volume_and_series() {
    let closes: Vec<i64> = (1..=60).collect();
    let mut k = candles(&closes);
    k[59].volume = 3 * SCALE;
    let d = calculate_longer_term_data(&k);
    assert_eq!(d.current_volume, 3 * SCALE);
    assert_eq!(d.average_volume, (62 * SCALE) / 60);
    assert_eq!(d.ema20, calculate_ema(&k, 20));
    assert_eq!(d.ema50, calculate_ema(&k, 50));
    assert_eq!(d.macd_values.len(), 10);
    assert_eq!(d.rsi14_values.len(), 10);
    let empty = calculate_longer_term_data(&[]);
    assert_eq!(empty.average_volume, 0);
    assert!(empty.macd_values.is_empty());
}
