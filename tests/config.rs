use trading_core::auth::{
    check_password, get_otp_qrcode_url, hash_password, password_accepted, is_admin_mode, jwt_secret, set_admin_mode, set_jwt_secret, AuthError, AuthState,
    Claims,
};
use trading_core::config::{
    default_coin_list, default_exchange, default_scan_interval, prepare_config, AiModel, Config,
    ConfigError, Exchange, LeverageConfig, TraderConfig, TraderConfigError,
};

fn trader(id: &str) -> TraderConfig {
    TraderConfig {
        id: id.to_string(),
        name: "main".to_string(),
        enabled: true,
        ai_model: AiModel::Deepseek,
        exchange: Exchange::Binance,
        binance_api_key: Some("k".to_string()),
        binance_secret_key: Some("s".to_string()),
        hyperliquid_private_key: None,
        hyperliquid_wallet_addr: None,
        hyperliquid_testnet: false,
        aster_user: None,
        aster_signer: None,
        aster_private_key: None,
        qwen_key: None,
        deepseek_key: Some("d".to_string()),
        custom_api_url: None,
        custom_api_key: None,
        custom_model_name: None,
        initial_balance: 1000,
        scan_interval_minutes: 3,
    }
}

#[test]
fn defaults() {
    assert_eq!(default_exchange(), Exchange::Binance);
    assert_eq!(default_scan_interval(), 3);
    let coins = default_coin_list();
    assert_eq!(coins.len(), 8);
    assert_eq!(coins[0], "BTCUSDT");
    assert_eq!(coins[7], "HYPEUSDT");
    let c = Config::default();
    assert_eq!(c.api_server_port, 8080);
    assert!(c.use_default_coins);
    assert_eq!(c.leverage, LeverageConfig::default());
    assert_eq!(LeverageConfig::default().btc_eth_leverage, 5);
}

#[test]
fn trader_checks_in_order() {
    assert_eq!(trader("a").validate(), Ok(()));
    assert_eq!(trader("").validate(), Err(TraderConfigError::EmptyId));
    let mut t = trader("a");
    t.name = String::new();
    assert_eq!(t.validate(), Err(TraderConfigError::EmptyName));
    let mut t = trader("a");
    t.initial_balance = 0;
    assert_eq!(t.validate(), Err(TraderConfigError::NonPositiveBalance));
    let mut t = trader("a");
    t.binance_secret_key = None;
    assert_eq!(t.validate(), Err(TraderConfigError::MissingBinanceKeys));
    let mut t = trader("a");
    t.exchange = Exchange::Hyperliquid;
    assert_eq!(t.validate(), Err(TraderConfigError::MissingHyperliquidKey));
    let mut t = trader("a");
    t.exchange = Exchange::Aster;
    assert_eq!(t.validate(), Err(TraderConfigError::MissingAsterKeys));
    let mut t = trader("a");
    t.ai_model = AiModel::Qwen;
    assert_eq!(t.validate(), Err(TraderConfigError::MissingQwenKey));
    let mut t = trader("a");
    t.deepseek_key = None;
    assert_eq!(t.validate(), Err(TraderConfigError::MissingDeepseekKey));
    let mut t = trader("a");
    t.ai_model = AiModel::Custom;
    assert_eq!(t.validate(), Err(TraderConfigError::MissingCustomApiUrl));
    t.custom_api_url = Some("u".to_string());
    assert_eq!(t.validate(), Err(TraderConfigError::MissingCustomApiKey));
    t.custom_api_key = Some("k".to_string());
    assert_eq!(t.validate(), Err(TraderConfigError::MissingCustomModelName));
    assert_eq!(t.get_scan_interval(), 180);
}

#[test]
fn config_validation() {
    let mut c = Config::default();
    assert!(matches!(c.validate(), Err(ConfigError::NoTraders)));
    c.traders.push(trader("a"));
    assert!(c.validate().is_ok());
    c.traders.push(trader("a"));
    match c.validate() {
        Err(ConfigError::DuplicateTraderId { index, id }) => {
            assert_eq!(index, 1);
            assert_eq!(id, "a");
        }
        other => panic!("unexpected {:?}", other),
    }
    c.traders[1] = trader("b");
    c.traders[1].initial_balance = -1;
    match c.validate() {
        Err(ConfigError::InvalidTrader { index, error, .. }) => {
            assert_eq!(index, 1);
            assert_eq!(error, TraderConfigError::NonPositiveBalance);
        }
        other => panic!("unexpected {:?}", other),
    }
}

#[test]
fn prepare_fills_default_coins() {
    let mut c = Config::default();
    c.default_coins = Vec::new();
    c.traders.push(trader("a"));
    let c = prepare_config(c).unwrap();
    assert_eq!(c.default_coins.len(), 8);
    let empty = Config::default();
    assert!(prepare_config(empty).is_err());
}

#[test]
fn leverage_warnings() {
    let l = LeverageConfig { btc_eth_leverage: 10, altcoin_leverage: 5 };
    assert_eq!(l.check_warnings(), (true, false));
}

#[test]
fn auth_state_flags() {
    let mut s = AuthState::new();
    assert!(!is_admin_mode(&s));
    set_admin_mode(&mut s, true);
    assert!(is_admin_mode(&s));
    assert!(matches!(jwt_secret(&s), Err(AuthError::JwtSecretNotSet)));
    set_jwt_secret(&mut s, "first");
    set_jwt_secret(&mut s, "second");
    assert_eq!(jwt_secret(&s).unwrap(), "first");
}

#[test]
fn claims_valid_for_a_day() {
    let c = Claims::new("u1", "a@b.c", 1_000);
    assert_eq!(c.iat, 1_000);
    assert_eq!(c.nbf, 1_000);
    assert_eq!(c.exp, 1_000 + 86_400);
    assert_eq!(c.iss, "AITrading");
    assert_eq!(c.user_id, "u1");
}

#[test]
fn otp_url_encodes_email() {
    let url = get_otp_qrcode_url("ABC", "a b@x.com");
    assert_eq!(url, "otpauth://totp/AITrading:a%20b%40x.com?secret=ABC&issuer=AITrading");
}

#[test]
fn password_hash_round_trip() {
    let h = hash_password("s3cret").unwrap();
    assert!(h.starts_with("$2b$12$"));
    assert_eq!(h.len(), 60);
    assert!(check_password("s3cret", &h));
    assert!(!check_password("other", &h));
    assert!(!check_password("s3cret", "not a hash"));
    assert!(password_accepted(Some(true)));
    assert!(!password_accepted(Some(false)));
    assert!(!password_accepted(None));
}

#[test]
fn monitor_settings_are_explicit() {
    let c = trading_core::types::Config::standard();
    assert_eq!(c.update_interval, 60);
    assert_eq!(c.alert_thresholds.rsi_overbought, 70 * trading_core::types::SCALE);
    assert_eq!(c.alert_thresholds.price_change_15min, 5_000_000);
    assert_eq!(c.cleanup_config.inactive_timeout, 1800);
    assert_eq!(c.cleanup_config.check_interval, 300);
}
