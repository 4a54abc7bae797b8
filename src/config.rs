use vstd::prelude::*;

verus! {

/// AI model a trader uses.
#[derive(Clone, Copy, Debug, PartialEq, Eq, Structural)]
pub enum AiModel {
    Qwen,
    Deepseek,
    Custom,
}

/// Exchange a trader trades on.
#[derive(Clone, Copy, Debug, PartialEq, Eq, Structural)]
pub enum Exchange {
    Binance,
    Hyperliquid,
    Aster,
}

/// Exchange used when a trader names none.
pub fn default_exchange() -> (r: Exchange)
    ensures
        r == Exchange::Binance,
{
    Exchange::Binance
}

/// Scan interval, in minutes, used when a trader names none.
pub fn default_scan_interval() -> (r: i32)
    ensures
        r == 3,
{
    3
}

/// Configuration of one trader. The initial balance is fixed-point.
#[derive(Debug)]
pub struct TraderConfig {
    pub id: String,
    pub name: String,
    pub enabled: bool,
    pub ai_model: AiModel,
    pub exchange: Exchange,
    pub binance_api_key: Option<String>,
    pub binance_secret_key: Option<String>,
    pub hyperliquid_private_key: Option<String>,
    pub hyperliquid_wallet_addr: Option<String>,
    pub hyperliquid_testnet: bool,
    pub aster_user: Option<String>,
    pub aster_signer: Option<String>,
    pub aster_private_key: Option<String>,
    pub qwen_key: Option<String>,
    pub deepseek_key: Option<String>,
    pub custom_api_url: Option<String>,
    pub custom_api_key: Option<String>,
    pub custom_model_name: Option<String>,
    pub initial_balance: i64,
    pub scan_interval_minutes: i32,
}

/// Why a trader's configuration is rejected.
#[derive(Clone, Copy, Debug, PartialEq, Eq, Structural)]
pub enum TraderConfigError {
    EmptyId,
    EmptyName,
    NonPositiveBalance,
    MissingBinanceKeys,
    MissingHyperliquidKey,
    MissingAsterKeys,
    MissingQwenKey,
    MissingDeepseekKey,
    MissingCustomApiUrl,
    MissingCustomApiKey,
    MissingCustomModelName,
}

/// The first check a trader fails, in the order: id, name, balance, the
/// exchange's keys, the AI model's keys; `None` when it passes them all.
pub open spec fn trader_problem(t: TraderConfig) -> Option<TraderConfigError> {
    if t.id@.len() == 0 {
        Some(TraderConfigError::EmptyId)
    } else if t.name@.len() == 0 {
        Some(TraderConfigError::EmptyName)
    } else if t.initial_balance <= 0 {
        Some(TraderConfigError::NonPositiveBalance)
    } else if t.exchange == Exchange::Binance && (t.binance_api_key is None || t.binance_secret_key is None) {
        Some(TraderConfigError::MissingBinanceKeys)
    } else if t.exchange == Exchange::Hyperliquid && t.hyperliquid_private_key is None {
        Some(TraderConfigError::MissingHyperliquidKey)
    } else if t.exchange == Exchange::Aster && (t.aster_user is None || t.aster_signer is None
        || t.aster_private_key is None) {
        Some(TraderConfigError::MissingAsterKeys)
    } else if t.ai_model == AiModel::Qwen && t.qwen_key is None {
        Some(TraderConfigError::MissingQwenKey)
    } else if t.ai_model == AiModel::Deepseek && t.deepseek_key is None {
        Some(TraderConfigError::MissingDeepseekKey)
    } else if t.ai_model == AiModel::Custom && t.custom_api_url is None {
        Some(TraderConfigError::MissingCustomApiUrl)
    } else if t.ai_model == AiModel::Custom && t.custom_api_key is None {
        Some(TraderConfigError::MissingCustomApiKey)
    } else if t.ai_model == AiModel::Custom && t.custom_model_name is None {
        Some(TraderConfigError::MissingCustomModelName)
    } else {
        None
    }
}

impl TraderConfig {
    /// Scan interval in seconds.
    pub fn get_scan_interval(&self) -> (r: i64)
        ensures
            r == self.scan_interval_minutes * 60,
    {
        self.scan_interval_minutes as i64 * 60
    }

    /// Checks the trader's configuration; fails with the first problem found.
    pub fn validate(&self) -> (r: Result<(), TraderConfigError>)
        ensures
            r is Ok <==> trader_problem(*self) is None,
            r matches Err(e) ==> trader_problem(*self) == Some(e),
    {
        if self.id.as_str().unicode_len() == 0 {
            return Err(TraderConfigError::EmptyId);
        }
        if self.name.as_str().unicode_len() == 0 {
            return Err(TraderConfigError::EmptyName);
        }
        if self.initial_balance <= 0 {
            return Err(TraderConfigError::NonPositiveBalance);
        }
        match self.exchange {
            Exchange::Binance => {
                if self.binance_api_key.is_none() || self.binance_secret_key.is_none() {
                    return Err(TraderConfigError::MissingBinanceKeys);
                }
            },
            Exchange::Hyperliquid => {
                if self.hyperliquid_private_key.is_none() {
                    return Err(TraderConfigError::MissingHyperliquidKey);
                }
            },
            Exchange::Aster => {
                if self.aster_user.is_none() || self.aster_signer.is_none() || self.aster_private_key.is_none() {
                    return Err(TraderConfigError::MissingAsterKeys);
                }
            },
        }
        match self.ai_model {
            AiModel::Qwen => {
                if self.qwen_key.is_none() {
                    return Err(TraderConfigError::MissingQwenKey);
                }
            },
            AiModel::Deepseek => {
                if self.deepseek_key.is_none() {
                    return Err(TraderConfigError::MissingDeepseekKey);
                }
            },
            AiModel::Custom => {
                if self.custom_api_url.is_none() {
                    return Err(TraderConfigError::MissingCustomApiUrl);
                }
                if self.custom_api_key.is_none() {
                    return Err(TraderConfigError::MissingCustomApiKey);
                }
                if self.custom_model_name.is_none() {
                    return Err(TraderConfigError::MissingCustomModelName);
                }
            },
        }
        Ok(())
    }
}

/// Leverage per asset class.
#[derive(Clone, Copy, Debug, PartialEq, Eq, Structural)]
pub struct LeverageConfig {
    pub btc_eth_leverage: i32,
    pub altcoin_leverage: i32,
}

/// Leverage above which sub-accounts often refuse orders.
pub const SAFE_LEVERAGE: i32 = 5;

impl Default for LeverageConfig {
    /// Both leverages at 5.
    fn default() -> (r: LeverageConfig)
        ensures
            r.btc_eth_leverage == 5,
            r.altcoin_leverage == 5,
    {
        LeverageConfig { btc_eth_leverage: 5, altcoin_leverage: 5 }
    }
}

impl LeverageConfig {
    /// Which leverages exceed what sub-accounts usually allow: (BTC/ETH, altcoins).
    pub fn check_warnings(&self) -> (r: (bool, bool))
        ensures
            r == (self.btc_eth_leverage > SAFE_LEVERAGE, self.altcoin_leverage > SAFE_LEVERAGE),
    {
        (self.btc_eth_leverage > SAFE_LEVERAGE, self.altcoin_leverage > SAFE_LEVERAGE)
    }
}

/// The default coins.
pub open spec fn default_coins_spec() -> Seq<Seq<char>> {
    seq![
        "BTCUSDT"@,
        "ETHUSDT"@,
        "SOLUSDT"@,
        "BNBUSDT"@,
        "XRPUSDT"@,
        "DOGEUSDT"@,
        "ADAUSDT"@,
        "HYPEUSDT"@,
    ]
}

/// Views of the strings of `v`.
pub open spec fn string_views(v: Seq<String>) -> Seq<Seq<char>> {
    v.map_values(|s: String| s@)
}

/// The coins traded when the configuration names none.
pub fn default_coin_list() -> (r: Vec<String>)
    ensures
        string_views(r@) == default_coins_spec(),
{
    let mut v: Vec<String> = Vec::new();
    v.push(String::from_str("BTCUSDT"));
    v.push(String::from_str("ETHUSDT"));
    v.push(String::from_str("SOLUSDT"));
    v.push(String::from_str("BNBUSDT"));
    v.push(String::from_str("XRPUSDT"));
    v.push(String::from_str("DOGEUSDT"));
    v.push(String::from_str("ADAUSDT"));
    v.push(String::from_str("HYPEUSDT"));
    assert(string_views(v@) =~= default_coins_spec());
    v
}

/// Whole configuration. Loss limits are fixed-point.
#[derive(Debug)]
pub struct Config {
    pub traders: Vec<TraderConfig>,
    pub use_default_coins: bool,
    pub default_coins: Vec<String>,
    pub api_server_port: u16,
    pub max_daily_loss: i64,
    pub max_drawdown: i64,
    pub stop_trading_minutes: i32,
    pub leverage: LeverageConfig,
}

impl Default for Config {
    /// No traders, the default coins, port 8080, no loss limits, leverage 5.
    fn default() -> (r: Config)
        ensures
            r.traders@.len() == 0,
            r.use_default_coins,
            string_views(r.default_coins@) == default_coins_spec(),
            r.api_server_port == 8080,
            r.max_daily_loss == 0,
            r.max_drawdown == 0,
            r.stop_trading_minutes == 0,
            r.leverage == (LeverageConfig { btc_eth_leverage: 5, altcoin_leverage: 5 }),
    {
        Config {
            traders: Vec::new(),
            use_default_coins: true,
            default_coins: default_coin_list(),
            api_server_port: 8080,
            max_daily_loss: 0,
            max_drawdown: 0,
            stop_trading_minutes: 0,
            leverage: LeverageConfig::default(),
        }
    }
}

/// Why a configuration is rejected.
#[derive(Clone, Debug)]
pub enum ConfigError {
    /// The configuration file could not be read.
    Io(String),
    /// The configuration file is not a valid document.
    Json(String),
    /// No trader is configured.
    NoTraders,
    /// The trader at `index` repeats an earlier trader's id.
    DuplicateTraderId { index: usize, id: String },
    /// The trader at `index` fails its own checks.
    InvalidTrader { index: usize, id: String, error: TraderConfigError },
}

/// The trader at `i` has an id that an earlier trader has.
pub open spec fn id_repeated(ts: Seq<TraderConfig>, i: int) -> bool {
    exists|j: int| 0 <= j < i && (#[trigger] ts[j]).id@ == ts[i].id@
}

/// Every trader before `i` has a fresh id and passes its checks.
pub open spec fn traders_ok_before(ts: Seq<TraderConfig>, i: int) -> bool {
    forall|j: int| 0 <= j < i ==> !id_repeated(ts, j) && trader_problem(#[trigger] ts[j]) is None
}

impl Config {
    /// Checks that there is a trader, that trader ids are unique and that each
    /// trader passes its checks; fails on the first trader that does not.
    pub fn validate(&self) -> (r: Result<(), ConfigError>)
        ensures
            r is Ok <==> self.traders@.len() > 0 && traders_ok_before(self.traders@, self.traders@.len() as int),
            r matches Err(ConfigError::NoTraders) ==> self.traders@.len() == 0,
            r matches Err(ConfigError::DuplicateTraderId { index, id }) ==> {
                &&& index < self.traders@.len()
                &&& id@ == self.traders@[index as int].id@
                &&& traders_ok_before(self.traders@, index as int)
                &&& id_repeated(self.traders@, index as int)
            },
            r matches Err(ConfigError::InvalidTrader { index, id, error }) ==> {
                &&& index < self.traders@.len()
                &&& id@ == self.traders@[index as int].id@
                &&& traders_ok_before(self.traders@, index as int)
                &&& !id_repeated(self.traders@, index as int)
                &&& trader_problem(self.traders@[index as int]) == Some(error)
            },
            !(r matches Err(ConfigError::Io(_))) && !(r matches Err(ConfigError::Json(_))),
    {
        let n = self.traders.len();
        if n == 0 {
            return Err(ConfigError::NoTraders);
        }
        let mut i: usize = 0;
        while i < n
            invariant
                n == self.traders@.len(),
                i <= n,
                traders_ok_before(self.traders@, i as int),
            decreases n - i,
        {
            let t = &self.traders[i];
            let mut j: usize = 0;
            while j < i
                invariant
                    i < n == self.traders@.len(),
                    j <= i,
                    t == self.traders@[i as int],
                    traders_ok_before(self.traders@, i as int),
                    forall|k: int| 0 <= k < j ==> (#[trigger] self.traders@[k]).id@ != t.id@,
                decreases i - j,
            {
                if self.traders[j].id == t.id {
                    assert(id_repeated(self.traders@, i as int)) by {
                        assert(self.traders@[j as int].id@ == self.traders@[i as int].id@);
                    }
                    return Err(ConfigError::DuplicateTraderId { index: i, id: t.id.clone() });
                }
                j = j + 1;
            }
            assert(!id_repeated(self.traders@, i as int));
            match t.validate() {
                Ok(()) => {},
                Err(e) => {
                    return Err(ConfigError::InvalidTrader { index: i, id: t.id.clone(), error: e });
                },
            }
            i = i + 1;
        }
        Ok(())
    }
}

/// Completes a parsed configuration and checks it: when default coins are in
/// use and none are listed, the default list is filled in.
pub fn prepare_config(config: Config) -> (r: Result<Config, ConfigError>)
    ensures
        match r {
            Ok(c) => {
                &&& c.traders == config.traders
                &&& c.use_default_coins == config.use_default_coins
                &&& (config.use_default_coins && config.default_coins@.len() == 0 ==> string_views(c.default_coins@)
                    == default_coins_spec())
                &&& (!(config.use_default_coins && config.default_coins@.len() == 0) ==> c.default_coins
                    == config.default_coins)
                &&& c.api_server_port == config.api_server_port
                &&& c.max_daily_loss == config.max_daily_loss
                &&& c.max_drawdown == config.max_drawdown
                &&& c.stop_trading_minutes == config.stop_trading_minutes
                &&& c.leverage == config.leverage
                &&& c.traders@.len() > 0 && traders_ok_before(c.traders@, c.traders@.len() as int)
            },
            Err(_) => !(config.traders@.len() > 0 && traders_ok_before(
                config.traders@,
                config.traders@.len() as int,
            )),
        },
{
    let mut config = config;
    if config.use_default_coins && config.default_coins.len() == 0 {
        config.default_coins = default_coin_list();
    }
    match config.validate() {
        Ok(()) => Ok(config),
        Err(e) => Err(e),
    }
}

} // verus!
