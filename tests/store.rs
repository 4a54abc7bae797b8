use trading_core::store::{default_model_name, exchange_defaults, model_provider, new_model_id};

#[test]
fn provider_from_model_id() {
    assert_eq!(model_provider("deepseek"), "deepseek");
    assert_eq!(model_provider("qwen"), "qwen");
    assert_eq!(model_provider("user1_custom"), "custom");
    assert_eq!(model_provider("a_b_openai"), "openai");
    assert_eq!(model_provider("plain"), "plain");
    assert_eq!(model_provider("trailing_"), "");
}

#[test]
fn model_names_and_ids() {
    assert_eq!(default_model_name("deepseek"), "Deepseek AI");
    assert_eq!(default_model_name("qwen"), "Qwen AI");
    assert_eq!(default_model_name("openai"), "openai AI");
    assert_eq!(new_model_id("u1", "qwen", "qwen"), "u1_qwen");
    assert_eq!(new_model_id("u1", "u1_qwen", "qwen"), "u1_qwen");
}

#[test]
fn exchange_names_and_kinds() {
    assert_eq!(exchange_defaults("binance"), ("Binance Futures".to_string(), "cex".to_string()));
    assert_eq!(exchange_defaults("hyperliquid"), ("Hyperliquid".to_string(), "dex".to_string()));
    assert_eq!(exchange_defaults("aster"), ("Aster DEX".to_string(), "dex".to_string()));
    assert_eq!(exchange_defaults("okx"), ("okx Exchange".to_string(), "cex".to_string()));
}
