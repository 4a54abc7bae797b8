use trading_core::snapshot::{
    assemble_data, change_against, normalize, normalize_upper, oi_from_latest, MarketError,
};
use trading_core::types::{Kline, SCALE};

fn candle(close: i64) -> Kline {
    Kline {
        open_time: 0,
        open: close,
        high: close,
        low: close,
        close,
        volume: SCALE,
        close_time: 0,
        quote_volume: 0,
        trades: 0,
        taker_buy_base_volume: 0,
        taker_buy_quote_volume: 0,
    }
}

fn candles(closes: &[i64]) -> Vec<Kline> {
    closes.iter().map(|c| candle(c * SCALE)).collect()
}

#[test]
fn normalize_appends_quote_asset() {
    assert_eq!(normalize("btc"), "BTCUSDT");
    assert_eq!(normalize("ethusdt"), "ETHUSDT");
    assert_eq!(normalize("Sol"), "SOLUSDT");
    assert_eq!(normalize(""), "USDT");
}

#[test]
fn normalize_upper_keeps_suffix() {
    assert_eq!(normalize_upper("BTCUSDT"), "BTCUSDT");
    assert_eq!(normalize_upper("USD"), "USDUSDT");
}

#[test]
fn price_change_against_lookback() {
    let k = candles(&[100, 105, 110]);
    // 110 against the close two candles back (100): +10 %
    assert_eq!(change_against(&k, 110 * SCALE, 2), 10 * SCALE as i128);
    // against the previous close (105): (110 - 105) / 105 * 100, rounded toward zero
    assert_eq!(change_against(&k, 110 * SCALE, 1), (5 * 100 * SCALE as i128) / 105);
    // not enough history
    assert_eq!(change_against(&k, 110 * SCALE, 3), 0);
    let falling = candles(&[200, 100]);
    assert_eq!(change_against(&falling, 100 * SCALE, 1), -50 * SCALE as i128);
    let zero = candles(&[0, 100]);
    assert_eq!(change_against(&zero, 100 * SCALE, 1), 0);
}

#[test]
fn open_interest_average_approximation() {
    let oi = oi_from_latest(1000 * SCALE);
    assert_eq!(oi.latest, 1000 * SCALE);
    assert_eq!(oi.average, 999 * SCALE);
}

#[test]
fn snapshot_needs_current_price() {
    let empty: Vec<Kline> = Vec::new();
    let r = assemble_data("BTCUSDT".to_string(), &empty, &empty, None, None);
    assert!(matches!(r, Err(MarketError::InsufficientData(_))));
    let zero = candles(&[5, 0]);
    let r = assemble_data("BTCUSDT".to_string(), &zero, &empty, None, None);
    assert!(matches!(r, Err(MarketError::InsufficientData(_))));
}

#[test]
fn snapshot_assembles_all_series() {
    let short: Vec<i64> = (1..=50).collect();
    let long: Vec<i64> = (1..=60).collect();
    let short = candles(&short);
    let long = candles(&long);
    let oi = oi_from_latest(10 * SCALE);
    let d = assemble_data("BTCUSDT".to_string(), &short, &long, Some(oi), Some(1000)).unwrap();
    assert_eq!(d.symbol, "BTCUSDT");
    assert_eq!(d.current_price, 50 * SCALE);
    // 50 against 30, twenty candles back
    assert_eq!(d.price_change_1h, (20 * 100 * SCALE as i128) / 30);
    // 50 against 59, the previous long candle
    assert_eq!(d.price_change_4h, -((9 * 100 * SCALE as i128) / 59));
    assert_eq!(d.funding_rate, Some(1000));
    assert_eq!(d.open_interest, Some(oi));
    assert_eq!(d.intraday_series.unwrap().mid_prices.len(), 10);
    assert_eq!(d.longer_term_context.unwrap().macd_values.len(), 10);
}
