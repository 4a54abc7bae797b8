use trading_core::report::{fixed_str, format_float_slice, sci_str};
use trading_core::snapshot::oi_from_latest;
use trading_core::types::{Data, IntradayData, SCALE};

#[test]
fn fixed_point_text() {
    assert_eq!(fixed_str(123_456_789, 3), "1.235");
    assert_eq!(fixed_str(-150_000_000, 2), "-1.50");
    assert_eq!(fixed_str(5, 3), "0.000");
    assert_eq!(fixed_str(100 * SCALE as i128, 3), "100.000");
    assert_eq!(fixed_str(1_005_000, 2), "0.01");
    assert_eq!(fixed_str(12_345_600_000, 2), "123.46");
}

#[test]
fn scientific_text() {
    assert_eq!(sci_str(0), "0.00e0");
    assert_eq!(sci_str(10_000), "1.00e-4");
    assert_eq!(sci_str(-12_345), "-1.23e-4");
    assert_eq!(sci_str(SCALE), "1.00e0");
    assert_eq!(sci_str(99_950_000), "1.00e0");
    assert_eq!(sci_str(250 * SCALE), "2.50e2");
    assert_eq!(sci_str(7), "7.00e-8");
}

#[test]
fn series_text() {
    assert_eq!(format_float_slice(&vec![SCALE, 250_000_000]), "[1.000, 2.500]");
    assert_eq!(format_float_slice(&vec![]), "[]");
    assert_eq!(format_float_slice(&vec![-SCALE / 2]), "[-0.500]");
}

#[test]
fn snapshot_report() {
    let data = Data {
        symbol: "BTCUSDT".to_string(),
        current_price: 100 * SCALE,
        price_change_1h: 0,
        price_change_4h: 0,
        current_ema20: 99 * SCALE,
        current_macd: SCALE / 2,
        current_rsi7: 70 * SCALE,
        open_interest: Some(oi_from_latest(1000 * SCALE)),
        funding_rate: Some(10_000),
        intraday_series: Some(IntradayData {
            mid_prices: vec![100 * SCALE],
            ema20_values: vec![],
            macd_values: vec![],
            rsi7_values: vec![],
            rsi14_values: vec![],
        }),
        longer_term_context: None,
    };
    let text = trading_core::report::format(&data);
    let expected = "current_price = 100.00, current_ema20 = 99.000, current_macd = 0.500, current_rsi (7 period) = 70.000\n\n\
In addition, here is the latest BTCUSDT open interest and funding rate for perps:\n\n\
Open Interest: Latest: 1000.00 Average: 999.00\n\n\
Funding Rate: 1.00e-4\n\n\
Intraday series (3‑minute intervals, oldest → latest):\n\n\
Mid prices: [100.000]\n\n\
EMA indicators (20‑period): []\n\n\
MACD indicators: []\n\n\
RSI indicators (7‑Period): []\n\n\
RSI indicators (14‑Period): []\n\n\
Longer‑term context (4‑hour timeframe):\n\n";
    assert_eq!(text, expected);
}
