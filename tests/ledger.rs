use trading_core::ledger::{
    reconstruct_trades, AccountSnapshot, Action, DecisionAction, DecisionRecord, PositionBook, Side,
};
use trading_core::logger::{analyze_records, get_statistics, is_expired, latest_start, DecisionLogger};
use trading_core::performance::analyze;
use trading_core::types::SCALE;

fn action(kind: Action, symbol: &str, quantity: i64, price: i64, timestamp: i64) -> DecisionAction {
    DecisionAction {
        action: kind,
        symbol: symbol.to_string(),
        quantity: quantity * SCALE,
        leverage: 5,
        price: price * SCALE,
        order_id: 0,
        timestamp,
        success: true,
        error: String::new(),
    }
}

fn record(decisions: Vec<DecisionAction>, success: bool) -> DecisionRecord {
    DecisionRecord {
        timestamp: 0,
        cycle_number: 0,
        system_prompt: String::new(),
        input_prompt: String::new(),
        cot_trace: String::new(),
        decision_json: String::new(),
        account_state: AccountSnapshot {
            total_balance: 0,
            available_balance: 0,
            total_unrealized_profit: 0,
            position_count: 0,
            margin_used_pct: 0,
        },
        positions: Vec::new(),
        candidate_coins: Vec::new(),
        decisions,
        execution_log: Vec::new(),
        success,
        error_message: String::new(),
    }
}

#[test]
fn reconstruction_example() {
    let mut book = PositionBook::new();
    let open = action(Action::OpenLong, "BTCUSDT", 2, 100, 0);
    let close = action(Action::CloseLong, "BTCUSDT", 2, 110, 1);
    assert!(book.apply(&open).is_none());
    assert!(book.has_open(&"BTCUSDT".to_string(), Side::Long));
    let t = book.apply(&close).expect("the close is matched");
    assert_eq!(t.pn_l, 20 * SCALE as i128);
    assert_eq!(t.position_value, 200 * SCALE as i128);
    assert_eq!(t.margin_used, 40 * SCALE as i128);
    assert_eq!(t.pn_l_pct, 50 * SCALE as i128);
    assert_eq!(t.duration, 1);
    assert_eq!(t.side, Side::Long);
    assert!(book.is_empty());
}

#[test]
fn unmatched_close_example() {
    let mut book = PositionBook::new();
    let close = action(Action::CloseShort, "BTCUSDT", 1, 50, 0);
    assert!(book.apply(&close).is_none());
    assert!(book.is_empty());
    let open = action(Action::OpenLong, "ETHUSDT", 1, 10, 0);
    book.apply(&open);
    assert!(book.apply(&close).is_none());
    assert!(book.has_open(&"ETHUSDT".to_string(), Side::Long));
}

#[test]
fn short_trade_profit() {
    let mut book = PositionBook::new();
    book.apply(&action(Action::OpenShort, "ETHUSDT", 3, 100, 10));
    let t = book.apply(&action(Action::CloseShort, "ETHUSDT", 3, 90, 40)).unwrap();
    assert_eq!(t.pn_l, 30 * SCALE as i128);
    assert_eq!(t.side, Side::Short);
    assert_eq!(t.duration, 30);
}

#[test]
fn reopen_overwrites_and_sides_are_separate() {
    let mut book = PositionBook::new();
    book.apply(&action(Action::OpenLong, "BTCUSDT", 1, 100, 0));
    book.apply(&action(Action::OpenLong, "BTCUSDT", 1, 120, 1));
    book.apply(&action(Action::OpenShort, "BTCUSDT", 1, 130, 2));
    let t = book.apply(&action(Action::CloseLong, "BTCUSDT", 1, 125, 3)).unwrap();
    assert_eq!(t.open_price, 120 * SCALE);
    assert_eq!(t.pn_l, 5 * SCALE as i128);
    assert!(book.has_open(&"BTCUSDT".to_string(), Side::Short));
    assert!(!book.has_open(&"BTCUSDT".to_string(), Side::Long));
}

#[test]
fn failed_actions_are_ignored() {
    let mut book = PositionBook::new();
    let mut open = action(Action::OpenLong, "BTCUSDT", 1, 100, 0);
    open.success = false;
    book.apply(&open);
    assert!(book.is_empty());
}

#[test]
fn zero_leverage_gives_no_margin() {
    let mut book = PositionBook::new();
    let mut open = action(Action::OpenLong, "BTCUSDT", 1, 100, 0);
    open.leverage = 0;
    book.apply(&open);
    let t = book.apply(&action(Action::CloseLong, "BTCUSDT", 1, 110, 1)).unwrap();
    assert_eq!(t.margin_used, 0);
    assert_eq!(t.pn_l_pct, 0);
}

#[test]
fn priming_carries_open_positions() {
    let history = vec![
        record(vec![action(Action::OpenLong, "SOLUSDT", 1, 10, 0)], true),
        record(vec![action(Action::OpenShort, "BTCUSDT", 1, 100, 1)], true),
    ];
    let window = vec![record(vec![action(Action::CloseShort, "BTCUSDT", 1, 90, 2)], true)];
    let trades = reconstruct_trades(&history, &window);
    assert_eq!(trades.len(), 1);
    assert_eq!(trades[0].pn_l, 10 * SCALE as i128);
    let unprimed = reconstruct_trades(&[], &window);
    assert!(unprimed.is_empty());
}

#[test]
fn performance_example() {
    let mut book = PositionBook::new();
    let mut outcomes = Vec::new();
    for (symbol, close) in [("BTCUSDT", 110), ("ETHUSDT", 95), ("BTCUSDT", 115)] {
        book.apply(&action(Action::OpenLong, symbol, 1, 100, 0));
        outcomes.push(book.apply(&action(Action::CloseLong, symbol, 1, close, 1)).unwrap());
    }
    let a = analyze(outcomes);
    assert_eq!(a.total_trades, 3);
    assert_eq!(a.winning_trades, 2);
    assert_eq!(a.losing_trades, 1);
    assert_eq!(a.win_rate, 2 * SCALE as i128 / 3);
    assert_eq!(a.avg_win, 125 * SCALE as i128 / 10);
    assert_eq!(a.avg_loss, -5 * SCALE as i128);
    assert_eq!(a.profit_factor, 5 * SCALE as i128);
    assert_eq!(a.recent_trades.len(), 3);
    assert_eq!(a.symbol_stats.len(), 2);
    assert_eq!(a.symbol_stats[0].symbol, "BTCUSDT");
    assert_eq!(a.symbol_stats[0].total_trades, 2);
    assert_eq!(a.symbol_stats[0].total_pn_l, 25 * SCALE as i128);
    assert_eq!(a.symbol_stats[0].win_rate, SCALE as i128);
    assert_eq!(a.symbol_stats[1].losing_trades, 1);
    assert_eq!(a.best_symbol, "BTCUSDT");
    assert_eq!(a.worst_symbol, "ETHUSDT");
    assert!(a.sharpe_ratio > 0);
}

#[test]
fn performance_of_nothing() {
    let a = analyze(Vec::new());
    assert_eq!(a.total_trades, 0);
    assert_eq!(a.win_rate, 0);
    assert_eq!(a.profit_factor, 0);
    assert_eq!(a.sharpe_ratio, 0);
    assert_eq!(a.best_symbol, "");
}

#[test]
fn profit_factor_without_losses_is_zero() {
    let mut book = PositionBook::new();
    book.apply(&action(Action::OpenLong, "BTCUSDT", 1, 100, 0));
    let t = book.apply(&action(Action::CloseLong, "BTCUSDT", 1, 110, 1)).unwrap();
    let a = analyze(vec![t]);
    assert_eq!(a.profit_factor, 0);
    assert_eq!(a.sharpe_ratio, 0);
}

#[test]
fn equal_profit_ties_go_to_earlier_name() {
    let mut book = PositionBook::new();
    let mut outcomes = Vec::new();
    for symbol in ["XRPUSDT", "ADAUSDT"] {
        book.apply(&action(Action::OpenLong, symbol, 1, 100, 0));
        outcomes.push(book.apply(&action(Action::CloseLong, symbol, 1, 110, 1)).unwrap());
    }
    let a = analyze(outcomes);
    assert_eq!(a.best_symbol, "ADAUSDT");
    assert_eq!(a.worst_symbol, "ADAUSDT");
}

#[test]
fn sharpe_of_two_trades() {
    let mut book = PositionBook::new();
    let mut outcomes = Vec::new();
    for close in [110, 130] {
        book.apply(&action(Action::OpenLong, "BTCUSDT", 1, 100, 0));
        outcomes.push(book.apply(&action(Action::CloseLong, "BTCUSDT", 1, close, 1)).unwrap());
    }
    // pnl% are 50 and 150: mean 100, population deviation 50
    let a = analyze(outcomes);
    assert_eq!(a.sharpe_ratio, 2 * SCALE as i128);
}

#[test]
fn analyze_records_primes_only_with_longer_history() {
    let close = || record(vec![action(Action::CloseLong, "BTCUSDT", 1, 110, 2)], true);
    let window = vec![close()];
    let history = vec![record(vec![action(Action::OpenLong, "BTCUSDT", 1, 100, 0)], true), close()];
    let a = analyze_records(&history, &window).unwrap();
    assert_eq!(a.total_trades, 1);
    assert_eq!(a.recent_trades[0].open_price, 100 * SCALE);
    let b = analyze_records(&window, &window).unwrap();
    assert_eq!(b.total_trades, 0);
}

#[test]
fn priming_ignores_closes_before_the_window() {
    let history = vec![
        record(vec![action(Action::OpenLong, "BTCUSDT", 1, 100, 0)], true),
        record(vec![action(Action::CloseLong, "BTCUSDT", 1, 105, 1)], true),
        record(vec![action(Action::OpenLong, "BTCUSDT", 1, 90, 2)], true),
        record(vec![action(Action::CloseLong, "BTCUSDT", 1, 99, 3)], true),
    ];
    let window = vec![record(vec![action(Action::CloseLong, "BTCUSDT", 1, 99, 3)], true)];
    let a = analyze_records(&history, &window).unwrap();
    assert_eq!(a.total_trades, 1);
    assert_eq!(a.recent_trades[0].open_price, 90 * SCALE);
    assert_eq!(a.recent_trades[0].pn_l, 9 * SCALE as i128);
}

#[test]
fn large_leverage_keeps_the_analysis() {
    let mut open = action(Action::OpenLong, "BTCUSDT", 2, 100, 0);
    open.leverage = 20_000;
    let window = vec![record(
        vec![
            open,
            action(Action::CloseLong, "BTCUSDT", 2, 110, 1),
            action(Action::CloseLong, "BTCUSDT", 2, 120, 2),
        ],
        true,
    )];
    let a = analyze_records(&window, &window).unwrap();
    assert_eq!(a.total_trades, 1);
    let t = &a.recent_trades[0];
    assert_eq!(t.pn_l, 20 * SCALE as i128);
    assert_eq!(t.position_value, 200 * SCALE as i128);
    assert_eq!(t.margin_used, 200 * SCALE as i128 / 20_000);
    assert_eq!(t.pn_l_pct, 200_000 * SCALE as i128);
}

#[test]
fn sharpe_falls_back_to_zero_beyond_its_range() {
    let mut book = PositionBook::new();
    let mut outcomes = Vec::new();
    for close in [110, 130] {
        let mut open = action(Action::OpenLong, "BTCUSDT", 1, 100, 0);
        open.leverage = 100_000;
        book.apply(&open);
        outcomes.push(book.apply(&action(Action::CloseLong, "BTCUSDT", 1, close, 1)).unwrap());
    }
    let a = analyze(outcomes);
    assert_eq!(a.total_trades, 2);
    assert_eq!(a.winning_trades, 2);
    assert_eq!(a.sharpe_ratio, 0);
}

#[test]
fn statistics_count_cycles_and_actions() {
    let mut failed = action(Action::OpenLong, "BTCUSDT", 1, 100, 0);
    failed.success = false;
    let records = vec![
        record(vec![action(Action::OpenLong, "BTCUSDT", 1, 100, 0), failed], true),
        record(vec![action(Action::CloseLong, "BTCUSDT", 1, 100, 0)], false),
    ];
    let s = get_statistics(&records);
    assert_eq!(s.total_cycles, 2);
    assert_eq!(s.successful_cycles, 1);
    assert_eq!(s.failed_cycles, 1);
    assert_eq!(s.total_open_positions, 1);
    assert_eq!(s.total_close_positions, 1);
}

#[test]
fn logger_names_files_by_time_and_cycle() {
    let mut logger = DecisionLogger::new("");
    assert_eq!(logger.log_dir, "decision_logs");
    let mut r = record(Vec::new(), true);
    let name = logger.log_decision(&mut r, 0).unwrap();
    assert_eq!(name, "decision_19700101_000000_cycle1.json");
    assert_eq!(r.cycle_number, 1);
    let name = logger.log_decision(&mut r, 86_400_000 + 3_723_000).unwrap();
    assert_eq!(name, "decision_19700102_010203_cycle2.json");
    assert_eq!(logger.cycle_number, 2);
    let p = logger.record_pattern(0).unwrap();
    assert_eq!(p, "decision_logs/decision_19700101_000000_*.json");
    let name = logger.log_decision(&mut r, 253_402_300_799_999).unwrap();
    assert_eq!(name, "decision_99991231_235959_cycle3.json");
    assert!(logger.log_decision(&mut r, i64::MAX).is_none());
    assert_eq!(logger.cycle_number, 3);
}

#[test]
fn latest_window_and_expiry() {
    assert_eq!(latest_start(10, 3), 7);
    assert_eq!(latest_start(2, 3), 0);
    assert!(is_expired(0, 2 * 86_400_000, 1));
    assert!(!is_expired(86_400_000, 2 * 86_400_000, 1));
    assert!(!is_expired(0, 1000, 1));
}
